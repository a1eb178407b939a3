//! The state of the converter's window and how each button and each finished
//! task changes it.
use vstd::prelude::*;
use crate::execpress::{execpress, execpress_outcome, execpress_verdict, path_exists};
use crate::scan::Execx;

verus! {

/// The colour of the message: green for good news, red for bad.
#[derive(Clone, Copy, Debug, PartialEq, Eq, Structural)]
pub enum Tone {
    Good,
    Bad,
}

/// The window's state.
pub struct Xmlparse {
    /// The export chosen.
    pub xml_value: String,
    /// The colour of the message.
    pub tone: Tone,
    /// The message shown.
    pub msg_value: String,
    /// The number of rows of the export.
    pub rows_num: u64,
}

/// The window's state, as values.
pub ghost struct PanelModel {
    pub xml_value: Seq<char>,
    pub tone: Tone,
    pub msg_value: Seq<char>,
    pub rows_num: u64,
}

impl View for Xmlparse {
    type V = PanelModel;

    open spec fn view(&self) -> PanelModel {
        PanelModel {
            xml_value: self.xml_value@,
            tone: self.tone,
            msg_value: self.msg_value@,
            rows_num: self.rows_num,
        }
    }
}

/// The window's first state.
pub open spec fn panel_initial() -> PanelModel {
    PanelModel {
        xml_value: "--"@,
        tone: Tone::Good,
        msg_value: "no message"@,
        rows_num: 0,
    }
}

/// The window after an export was chosen: `errcode` and `errstr` are the
/// answer of the choice, `newinput` the export chosen, `exists` whether it
/// exists. The flag tells whether its rows are to be counted next.
///
/// A failed choice shows its message in red. A chosen export that exists
/// becomes the window's export, with 0 rows until they are counted. One that
/// does not exist is reported in red.
pub open spec fn input_outcome(
    m: PanelModel,
    errcode: u32,
    errstr: Seq<char>,
    newinput: Seq<char>,
    exists: bool,
) -> (PanelModel, bool) {
    if errcode != 0 {
        (PanelModel { msg_value: errstr, tone: Tone::Bad, ..m }, false)
    } else if exists {
        (PanelModel { msg_value: errstr, tone: Tone::Good, xml_value: newinput, rows_num: 0, ..m }, true)
    } else {
        (
            PanelModel {
                msg_value: "xml file does not exist: "@ + newinput,
                tone: Tone::Bad,
                ..m
            },
            false,
        )
    }
}

/// The window after the rows of the export were counted (`Ok`), or after
/// reading it failed (`Err`, with the error's description).
pub open spec fn rows_outcome(m: PanelModel, count: Result<u64, Seq<char>>) -> PanelModel {
    match count {
        Ok(n) => PanelModel {
            rows_num: n,
            tone: Tone::Good,
            msg_value: "got xml file and retrieved its number of rows"@,
            ..m
        },
        Err(d) => PanelModel { msg_value: "error reading xml "@ + d + " "@, tone: Tone::Bad, ..m },
    }
}

/// The window after the conversion button, given what was found on disk,
/// and whether the conversion starts: it starts when the checks give code 0.
pub open spec fn exec_outcome(m: PanelModel, target_exists: bool, xml_exists: bool) -> (
    PanelModel,
    bool,
) {
    let (code, msg) = execpress_outcome(m.xml_value, target_exists, xml_exists, m.rows_num);
    (
        PanelModel {
            msg_value: msg,
            tone: if code == 0 {
                Tone::Good
            } else {
                Tone::Bad
            },
            ..m
        },
        code == 0,
    )
}

/// The window after a conversion finished with `r`: its message, green for
/// code 0 and red otherwise.
pub open spec fn found_outcome(m: PanelModel, errcd: u32, errval: Seq<char>) -> PanelModel {
    PanelModel {
        msg_value: errval,
        tone: if errcd == 0 {
            Tone::Good
        } else {
            Tone::Bad
        },
        ..m
    }
}

impl Xmlparse {
    /// The window's first state.
    pub fn new() -> (x: Xmlparse)
        ensures
            x@ == panel_initial(),
    {
        Xmlparse {
            xml_value: String::from_str("--"),
            tone: Tone::Good,
            msg_value: String::from_str("no message"),
            rows_num: 0,
        }
    }

    /// The window's title.
    pub fn title() -> (s: String)
        ensures
            s@ == "CDtree xml to vertical bar separated csv for input into sqlite3 -- iced"@,
    {
        String::from_str("CDtree xml to vertical bar separated csv for input into sqlite3 -- iced")
    }

    /// Takes the answer of the choice of an export, given whether the export
    /// exists (see `input_outcome`).
    pub fn input_checked(&mut self, errcode: u32, errstr: String, newinput: String, exists: bool) -> (count: bool)
        ensures
            (final(self)@, count) == input_outcome(old(self)@, errcode, errstr@, newinput@, exists),
    {
        if errcode != 0 {
            self.msg_value = errstr;
            self.tone = Tone::Bad;
            false
        } else if exists {
            self.msg_value = errstr;
            self.tone = Tone::Good;
            self.xml_value = newinput;
            self.rows_num = 0;
            true
        } else {
            self.msg_value = String::from_str("xml file does not exist: ").concat(
                newinput.as_str(),
            );
            self.tone = Tone::Bad;
            false
        }
    }

    /// Takes the answer of the choice of an export, looking on disk whether
    /// the export exists when the choice succeeded. The result is the one
    /// `input_outcome` gives for what was found.
    pub fn xml_pressed(&mut self, errcode: u32, errstr: String, newinput: String) -> (count: bool)
        ensures
            exists|found: bool|
                (final(self)@, count) == input_outcome(
                    old(self)@,
                    errcode,
                    errstr@,
                    newinput@,
                    found,
                ),
    {
        let exists = if errcode == 0 {
            path_exists(newinput.as_str())
        } else {
            false
        };
        self.input_checked(errcode, errstr, newinput, exists)
    }

    /// Takes the number of rows of the export, or the description of the
    /// failure to read it (see `rows_outcome`).
    pub fn rows_counted(&mut self, count: Result<u64, String>)
        ensures
            final(self)@ == rows_outcome(
                old(self)@,
                match count {
                    Ok(n) => Ok(n),
                    Err(d) => Err(d@),
                },
            ),
    {
        match count {
            Ok(n) => {
                self.rows_num = n;
                self.tone = Tone::Good;
                self.msg_value = String::from_str("got xml file and retrieved its number of rows");
            },
            Err(d) => {
                self.msg_value = String::from_str("error reading xml ").concat(d.as_str()).concat(
                    " ",
                );
                self.tone = Tone::Bad;
            },
        }
    }

    /// The conversion button, given what was found on disk: whether the
    /// conversion starts (see `exec_outcome`).
    pub fn exec_checked(&mut self, target_exists: bool, xml_exists: bool) -> (start: bool)
        ensures
            (final(self)@, start) == exec_outcome(old(self)@, target_exists, xml_exists),
    {
        let (code, msg) = execpress_verdict(
            self.xml_value.as_str(),
            target_exists,
            xml_exists,
            self.rows_num,
        );
        self.msg_value = msg;
        self.tone = if code == 0 {
            Tone::Good
        } else {
            Tone::Bad
        };
        code == 0
    }

    /// The conversion button: runs the checks before a conversion (see
    /// `execpress`) and tells whether the conversion starts. The result is
    /// the one `exec_outcome` gives for what was found on disk.
    pub fn exec_pressed(&mut self) -> (start: bool)
        ensures
            exists|target_exists: bool, xml_exists: bool|
                (final(self)@, start) == exec_outcome(old(self)@, target_exists, xml_exists),
    {
        let (code, msg) = execpress(String::from_str(self.xml_value.as_str()), self.rows_num);
        let ghost m = old(self)@;
        self.msg_value = msg;
        self.tone = if code == 0 {
            Tone::Good
        } else {
            Tone::Bad
        };
        proof {
            let (t, x) = choose|t: bool, x: bool|
                (code, self.msg_value@) == execpress_outcome(m.xml_value, t, x, m.rows_num);
            assert((self@, code == 0) == exec_outcome(m, t, x));
        }
        code == 0
    }

    /// Takes the result of a finished conversion task (see `found_outcome`),
    /// or `None` when the task itself failed.
    pub fn exec_found(&mut self, r: Option<Execx>)
        ensures
            match r {
                Some(x) => final(self)@ == found_outcome(old(self)@, x.errcd, x.errval@),
                None => final(self)@ == (PanelModel {
                    msg_value: "error in copyx copyit routine"@,
                    tone: Tone::Bad,
                    ..old(self)@
                }),
            },
    {
        match r {
            Some(x) => {
                self.msg_value = x.errval;
                self.tone = if x.errcd == 0 {
                    Tone::Good
                } else {
                    Tone::Bad
                };
            },
            None => {
                self.msg_value = String::from_str("error in copyx copyit routine");
                self.tone = Tone::Bad;
            },
        }
    }
}

} // verus!
