//! The conversion of a CDtree XML export, line by line, into rows
//! `cd|file|directory|size|date` for sqlite3.
//!
//! `Scan` holds what has been read so far. The caller reads the export one
//! line at a time, hands each line to `Scan::on_line`, writes the row and the
//! date complaint that come back, stops when told to or at the end of the
//! file, and reports `Scan::finish`.
use vstd::prelude::*;
use vstd::slice::{slice_subrange, slice_to_vec};
use crate::text::{
    lemma_find_is_first, occurs_at, views, append_bytes, ascii_bytes, chars_of, contains, contains_bytes, find, find_bytes, lit,
};
use crate::date::{
    all_digits, append_decimal, convert_date, convert_date_bytes, decimal, digits_value,
    lemma_decimal_reads_back,
};

verus! {

/// The element of the export that the lines read so far are inside.
#[derive(Clone, Copy, Debug, PartialEq, Eq, Structural)]
pub enum Level {
    /// Before the first `<Cd>`.
    Start,
    /// Inside a `<Cd>`.
    Cd,
    /// Inside a `<Directory>`.
    Dir,
    /// Inside a `<File>`.
    File,
}

/// What a line of the export is taken for.
#[derive(Clone, Copy, Debug, PartialEq, Eq, Structural)]
pub enum LineKind {
    CdOpen,
    DirectoryOpen,
    FileOpen,
    FileClose,
    Name,
    FullName,
    Date,
    Size,
    Other,
}

/// The result of a conversion: a code (0, or 1 when the export could not be
/// read) and a message.
#[derive(Clone, Debug)]
pub struct Execx {
    pub errcd: u32,
    pub errval: String,
}

/// What has been read of the export so far.
pub ghost struct ScanModel {
    pub level: Level,
    /// The name of the current CD.
    pub cd: Seq<u8>,
    /// The current directory.
    pub dir: Seq<u8>,
    /// The last full name read (the file's name at `</File>`).
    pub name: Seq<u8>,
    /// The date of the current file.
    pub date: Seq<u8>,
    /// The size of the current file.
    pub size: Seq<u8>,
    /// The number of rows written.
    pub files: nat,
    /// The number of lines read.
    pub lines: nat,
    /// The number of rows of the export, after which reading stops.
    pub limit: nat,
    pub code: u32,
    pub message: Seq<char>,
}

/// The message that reports `files` rows written.
pub open spec fn files_message(files: nat) -> Seq<char> {
    "number of files : "@ + chars_of(decimal(files))
}

/// The message of a conversion that has read without failure and written
/// `files` rows.
pub open spec fn status_message(files: nat) -> Seq<char> {
    if files == 0 {
        "test of exec "@
    } else {
        files_message(files)
    }
}

/// The message of a conversion whose export could not be read.
pub open spec fn read_error_message() -> Seq<char> {
    "error reading xml file: do file i and iconv"@
}

/// The state before the first line of an export of `rows_num` rows.
pub open spec fn initial(rows_num: nat) -> ScanModel {
    ScanModel {
        level: Level::Start,
        cd: Seq::empty(),
        dir: Seq::empty(),
        name: lit(" "),
        date: Seq::empty(),
        size: Seq::empty(),
        files: 0,
        lines: 0,
        limit: rows_num,
        code: 0,
        message: "test of exec "@,
    }
}

/// A state that the scan can be in: no more rows than lines, and, while no
/// read has failed, the message reports the rows written.
pub open spec fn well_formed(m: ScanModel) -> bool {
    &&& m.files <= m.lines
    &&& m.code == 0 ==> m.message == status_message(m.files)
}

/// What a line is taken for, the first of these tests that holds deciding:
/// `<Cd>`, `<Directory>`, `<File>`, `</File>`, `<Name>`, `<FullName>`
/// anywhere in the line, then, inside a file only, `<Date>` and `<Size>`.
pub open spec fn kind(level: Level, line: Seq<u8>) -> LineKind {
    if contains(line, lit("<Cd>")) {
        LineKind::CdOpen
    } else if contains(line, lit("<Directory>")) {
        LineKind::DirectoryOpen
    } else if contains(line, lit("<File>")) {
        LineKind::FileOpen
    } else if contains(line, lit("</File>")) {
        LineKind::FileClose
    } else if contains(line, lit("<Name>")) {
        LineKind::Name
    } else if contains(line, lit("<FullName>")) {
        LineKind::FullName
    } else if level == Level::File && contains(line, lit("<Date>")) {
        LineKind::Date
    } else if level == Level::File && contains(line, lit("<Size>")) {
        LineKind::Size
    } else {
        LineKind::Other
    }
}

/// The first `close` comes after the end of the first `open`.
pub open spec fn tag_well_formed(line: Seq<u8>, open: Seq<u8>, close: Seq<u8>) -> bool {
    &&& find(line, open) is Some
    &&& find(line, close) is Some
    &&& find(line, close)->0 >= find(line, open)->0 + open.len()
}

/// The text between the first `open` and the first `close`.
pub open spec fn tag_text(line: Seq<u8>, open: Seq<u8>, close: Seq<u8>) -> Seq<u8> {
    line.subrange(find(line, open)->0 + open.len(), find(line, close)->0)
}

/// `v`, or `fallback` when `v` is empty.
pub open spec fn or_else(v: Seq<u8>, fallback: Seq<u8>) -> Seq<u8> {
    if v.len() > 0 {
        v
    } else {
        fallback
    }
}

/// The lines that can be read in state `m`: a line that is taken for an
/// element with a text has the element's closing tag after its opening tag.
/// (On any other line the conversion stops with a panic.)
pub open spec fn accepts(m: ScanModel, line: Seq<u8>) -> bool {
    match kind(m.level, line) {
        LineKind::Name => tag_well_formed(line, lit("<Name>"), lit("</Name>")),
        LineKind::FullName => tag_well_formed(line, lit("<FullName>"), lit("</FullName>")),
        LineKind::Date => tag_well_formed(line, lit("<Date>"), lit("</Date>")),
        LineKind::Size => tag_well_formed(line, lit("<Size>"), lit("</Size>")),
        _ => true,
    }
}

/// The date of a row: the file's date converted when it can be (see
/// `convert_date`), else as read.
pub open spec fn row_date(date: Seq<u8>) -> Seq<u8> {
    match convert_date(date) {
        Some(c) => c,
        None => date,
    }
}

/// The row written at `</File>` in state `m`.
pub open spec fn row(m: ScanModel) -> Seq<u8> {
    m.cd + lit("|") + m.name + lit("|") + m.dir + lit("|") + m.size + lit("|") + row_date(m.date)
}

/// The complaint written at `</File>` in state `m` when the date cannot be
/// converted.
pub open spec fn date_complaint(m: ScanModel) -> Seq<u8> {
    lit("not valid date saved for: ") + m.cd + lit(" ") + m.name + lit(" ") + m.dir + lit(" ")
        + m.size + lit(" ") + m.date
}

/// The state after reading `line` in state `m`.
pub open spec fn step(m: ScanModel, line: Seq<u8>) -> ScanModel {
    let n = ScanModel { lines: m.lines + 1, ..m };
    match kind(m.level, line) {
        LineKind::CdOpen => ScanModel { level: Level::Cd, ..n },
        LineKind::DirectoryOpen => ScanModel { level: Level::Dir, ..n },
        LineKind::FileOpen => ScanModel { level: Level::File, ..n },
        LineKind::FileClose => ScanModel {
            level: Level::Dir,
            date: row_date(m.date),
            files: m.files + 1,
            message: files_message(m.files + 1),
            ..n
        },
        LineKind::Name => {
            let v = tag_text(line, lit("<Name>"), lit("</Name>"));
            match m.level {
                Level::Cd => ScanModel { cd: or_else(v, lit("***no /Name or null value***")), ..n },
                Level::Dir => ScanModel { dir: or_else(v, lit("/")), ..n },
                Level::File => ScanModel { date: Seq::empty(), size: Seq::empty(), ..n },
                Level::Start => n,
            }
        },
        LineKind::FullName => {
            let v = tag_text(line, lit("<FullName>"), lit("</FullName>"));
            if v.len() > 0 {
                ScanModel {
                    name: v,
                    dir: if m.level == Level::Dir {
                        v
                    } else {
                        m.dir
                    },
                    ..n
                }
            } else {
                n
            }
        },
        LineKind::Date => ScanModel {
            date: or_else(
                tag_text(line, lit("<Date>"), lit("</Date>")),
                lit("***no /Date or null value***"),
            ),
            ..n
        },
        LineKind::Size => ScanModel {
            size: or_else(
                tag_text(line, lit("<Size>"), lit("</Size>")),
                lit("***no /Date or null value***"),
            ),
            ..n
        },
        LineKind::Other => n,
    }
}

/// The state after reading `lines` one after the other from state `m`.
pub open spec fn run(m: ScanModel, lines: Seq<Seq<u8>>) -> ScanModel
    decreases lines.len(),
{
    if lines.len() == 0 {
        m
    } else {
        step(run(m, lines.drop_last()), lines.last())
    }
}

/// The number of rows written while reading `lines` from state `m`: one for
/// each line taken for `</File>`.
pub open spec fn rows_written(m: ScanModel, lines: Seq<Seq<u8>>) -> nat
    decreases lines.len(),
{
    if lines.len() == 0 {
        0
    } else {
        rows_written(m, lines.drop_last()) + if kind(
            run(m, lines.drop_last()).level,
            lines.last(),
        ) == LineKind::FileClose {
            1nat
        } else {
            0nat
        }
    }
}

/// Reading a line keeps a state well formed.
pub proof fn lemma_step_well_formed(m: ScanModel, line: Seq<u8>)
    requires
        well_formed(m),
    ensures
        well_formed(step(m, line)),
{
}

/// Reading a line counts it, and counts a row exactly when the line is
/// taken for `</File>`.
pub proof fn lemma_step_counts(m: ScanModel, line: Seq<u8>)
    ensures
        step(m, line).lines == m.lines + 1,
        step(m, line).files == m.files + if kind(m.level, line) == LineKind::FileClose {
            1nat
        } else {
            0nat
        },
        step(m, line).limit == m.limit,
        step(m, line).code == m.code,
{
}

/// Over any sequence of lines, every line is counted, the row count grows
/// by the number of rows written, and a well-formed state stays well formed.
pub proof fn lemma_run_counts(m: ScanModel, lines: Seq<Seq<u8>>)
    requires
        well_formed(m),
    ensures
        run(m, lines).lines == m.lines + lines.len(),
        run(m, lines).files == m.files + rows_written(m, lines),
        run(m, lines).code == m.code,
        well_formed(run(m, lines)),
    decreases lines.len(),
{
    if lines.len() > 0 {
        lemma_run_counts(m, lines.drop_last());
        lemma_step_counts(run(m, lines.drop_last()), lines.last());
        lemma_step_well_formed(run(m, lines.drop_last()), lines.last());
    }
}

/// After an export was read without failure, the message of the conversion
/// reports exactly the number of rows written ("test of exec " when there
/// are none).
pub proof fn lemma_message_reports_rows(rows_num: nat, lines: Seq<Seq<u8>>)
    ensures
        run(initial(rows_num), lines).message == status_message(
            rows_written(initial(rows_num), lines),
        ),
        run(initial(rows_num), lines).code == 0,
{
    lemma_run_counts(initial(rows_num), lines);
}

/// What a conversion has done: the state it ended in, the rows and the date
/// complaints it wrote, and whether every line it read could be read (see
/// `accepts`; on a line that cannot, the conversion stops with a panic).
pub ghost struct Conversion {
    pub state: ScanModel,
    pub rows: Seq<Seq<u8>>,
    pub complaints: Seq<Seq<u8>>,
    pub accepted: bool,
}

/// The rows written when `line` is read in state `m`.
pub open spec fn rows_of_line(m: ScanModel, line: Seq<u8>) -> Seq<Seq<u8>> {
    if kind(m.level, line) == LineKind::FileClose {
        seq![row(m)]
    } else {
        Seq::empty()
    }
}

/// The date complaints written when `line` is read in state `m`.
pub open spec fn complaints_of_line(m: ScanModel, line: Seq<u8>) -> Seq<Seq<u8>> {
    if kind(m.level, line) == LineKind::FileClose && convert_date(m.date) is None {
        seq![date_complaint(m)]
    } else {
        Seq::empty()
    }
}

/// The conversion of `lines` from state `m`: the lines are read one after
/// the other, and reading stops after the first line that brings the count
/// of lines read above the export's row count, or at the end of the lines.
pub open spec fn convert(m: ScanModel, lines: Seq<Seq<u8>>) -> Conversion
    decreases lines.len(),
{
    if lines.len() == 0 {
        Conversion { state: m, rows: Seq::empty(), complaints: Seq::empty(), accepted: true }
    } else {
        let m1 = step(m, lines[0]);
        let rest = if m1.lines > m1.limit {
            Conversion { state: m1, rows: Seq::empty(), complaints: Seq::empty(), accepted: true }
        } else {
            convert(m1, lines.drop_first())
        };
        Conversion {
            state: rest.state,
            rows: rows_of_line(m, lines[0]) + rest.rows,
            complaints: complaints_of_line(m, lines[0]) + rest.complaints,
            accepted: accepts(m, lines[0]) && rest.accepted,
        }
    }
}

/// From a state that has not yet read more lines than the row count,
/// a conversion reads only the lines up to the first one past the row count:
/// it reads `min(lines.len(), limit - lines_read + 1)` lines, and the lines
/// after those change nothing, whatever they hold.
pub proof fn lemma_convert_reads_up_to_limit(m: ScanModel, lines: Seq<Seq<u8>>)
    requires
        m.lines <= m.limit,
    ensures
        convert(m, lines).state.lines == m.lines + if lines.len() <= m.limit - m.lines + 1 {
            lines.len() as int
        } else {
            m.limit - m.lines + 1
        },
        lines.len() > m.limit - m.lines + 1 ==> convert(m, lines) == convert(
            m,
            lines.take(m.limit - m.lines + 1),
        ),
    decreases lines.len(),
{
    if lines.len() > 0 {
        let m1 = step(m, lines[0]);
        lemma_step_counts(m, lines[0]);
        let k = m.limit - m.lines + 1;
        if lines.len() > k {
            let t = lines.take(k);
            assert(t[0] == lines[0]);
            if m1.lines <= m1.limit {
                assert(t.drop_first() =~= lines.drop_first().take(k - 1));
                lemma_convert_reads_up_to_limit(m1, lines.drop_first());
            }
        } else if m1.lines <= m1.limit {
            lemma_convert_reads_up_to_limit(m1, lines.drop_first());
        }
    }
}

/// The conversion of an export of `rows_num` rows reads at most its first
/// `rows_num + 1` lines: it stops right after line `rows_num + 1`, and the
/// lines after it have no effect on the rows, the complaints, the result or
/// whether the conversion panics.
pub proof fn lemma_conversion_ignores_later_lines(rows_num: nat, lines: Seq<Seq<u8>>)
    ensures
        convert(initial(rows_num), lines).state.lines == if lines.len() <= rows_num + 1 {
            lines.len() as int
        } else {
            rows_num + 1int
        },
        lines.len() > rows_num + 1 ==> convert(initial(rows_num), lines) == convert(
            initial(rows_num),
            lines.take(rows_num + 1int),
        ),
{
    lemma_convert_reads_up_to_limit(initial(rows_num), lines);
}

/// Over any lines, a conversion from a well-formed state counts one row for
/// each row it writes, keeps its code, and ends well formed.
pub proof fn lemma_convert_counts(m: ScanModel, lines: Seq<Seq<u8>>)
    requires
        well_formed(m),
    ensures
        convert(m, lines).state.files == m.files + convert(m, lines).rows.len(),
        convert(m, lines).state.code == m.code,
        well_formed(convert(m, lines).state),
    decreases lines.len(),
{
    if lines.len() > 0 {
        let m1 = step(m, lines[0]);
        lemma_step_counts(m, lines[0]);
        lemma_step_well_formed(m, lines[0]);
        if m1.lines <= m1.limit {
            lemma_convert_counts(m1, lines.drop_first());
        }
    }
}

/// The message of a conversion reports the number of rows it wrote: with
/// none it is "test of exec "; with `n` rows it is "number of files : "
/// followed by decimal digits, without a leading zero, that read as `n`.
pub proof fn lemma_conversion_message_counts_rows(rows_num: nat, lines: Seq<Seq<u8>>)
    ensures
        convert(initial(rows_num), lines).state.code == 0,
        convert(initial(rows_num), lines).rows.len() == 0 ==> convert(
            initial(rows_num),
            lines,
        ).state.message == "test of exec "@,
        convert(initial(rows_num), lines).rows.len() > 0 ==> exists|d: Seq<u8>|
            {
                &&& convert(initial(rows_num), lines).state.message == "number of files : "@
                    + chars_of(d)
                &&& all_digits(d)
                &&& digits_value(d) == convert(initial(rows_num), lines).rows.len()
                &&& d[0] != 48
            },
{
    let c = convert(initial(rows_num), lines);
    lemma_convert_counts(initial(rows_num), lines);
    if c.rows.len() > 0 {
        lemma_decimal_reads_back(c.rows.len());
        assert(c.state.message == "number of files : "@ + chars_of(decimal(c.rows.len())));
    }
}

/// A row begins with the name of its CD, followed by `|`.
pub proof fn lemma_row_begins_with_cd(m: ScanModel)
    ensures
        row(m).subrange(0, m.cd.len() + 1int) == m.cd + lit("|"),
{
    reveal_strlit("|");
    assert(row(m).subrange(0, m.cd.len() + 1int) =~= m.cd + lit("|"));
}

/// No occurrence of a pattern that begins with `<` in a line whose only `<`
/// stand at offsets `a` and `b`, when the pattern stands at neither.
proof fn lemma_absent_between_brackets(line: Seq<u8>, pat: Seq<u8>, a: int, b: int)
    requires
        pat.len() > 0,
        pat[0] == 60,
        forall|i: int| 0 <= i < line.len() && line[i] == 60 ==> i == a || i == b,
        !occurs_at(line, pat, a),
        !occurs_at(line, pat, b),
    ensures
        !contains(line, pat),
{
    assert forall|i: int| !occurs_at(line, pat, i) by {
        if occurs_at(line, pat, i) {
            assert(line.subrange(i, i + pat.len())[0] == pat[0]);
        }
    }
}

/// Inside a CD, a line `<Name>v</Name>` (anything after it but no further
/// `<`) with a non-empty `v` makes `v` the CD's name, whatever name was held
/// before; every row written under it then begins with `v` and `|`.
pub proof fn lemma_cd_takes_name(m: ScanModel, v: Seq<u8>, tail: Seq<u8>)
    requires
        m.level == Level::Cd,
        v.len() > 0,
        forall|i: int| 0 <= i < v.len() ==> v[i] != 60,
        forall|i: int| 0 <= i < tail.len() ==> tail[i] != 60,
    ensures
        accepts(m, lit("<Name>") + v + lit("</Name>") + tail),
        step(m, lit("<Name>") + v + lit("</Name>") + tail).cd == v,
        step(m, lit("<Name>") + v + lit("</Name>") + tail).level == Level::Cd,
        row(step(m, lit("<Name>") + v + lit("</Name>") + tail)).subrange(0, v.len() + 1int) == v
            + lit("|"),
{
    reveal_strlit("<Name>");
    reveal_strlit("</Name>");
    reveal_strlit("<Cd>");
    reveal_strlit("<Directory>");
    reveal_strlit("<File>");
    reveal_strlit("</File>");
    let open = lit("<Name>");
    let close = lit("</Name>");
    let line = open + v + close + tail;
    let p2: int = 6 + v.len() as int;
    assert(open.len() == 6 && close.len() == 7);
    assert(line[0] == 60 && line[1] == 78);
    assert(line[p2] == 60 && line[p2 + 1] == 47 && line[p2 + 2] == 78);
    assert forall|i: int| 0 <= i < line.len() && line[i] == 60 implies i == 0 || i == p2 by {
        if 0 < i < 6 {
            assert(line[i] == open[i]);
        } else if 6 <= i < p2 {
            assert(line[i] == v[i - 6]);
        } else if p2 < i < p2 + 7 {
            assert(line[i] == close[i - p2]);
        } else if i >= p2 + 7 {
            assert(line[i] == tail[i - p2 - 7]);
        }
    }
    // None of the earlier tags stands in the line.
    assert forall|pat: Seq<u8>, k: int|
        (pat == lit("<Cd>") || pat == lit("<Directory>") || pat == lit("<File>") || pat == lit(
            "</File>",
        )) && (k == 0 || k == p2) implies !occurs_at(line, pat, k) by {
        if occurs_at(line, pat, k) {
            let w = line.subrange(k, k + pat.len());
            assert(w[1] == line[k + 1]);
            assert(w[2] == line[k + 2]);
        }
    }
    lemma_absent_between_brackets(line, lit("<Cd>"), 0, p2);
    lemma_absent_between_brackets(line, lit("<Directory>"), 0, p2);
    lemma_absent_between_brackets(line, lit("<File>"), 0, p2);
    lemma_absent_between_brackets(line, lit("</File>"), 0, p2);
    // `<Name>` first stands at 0, `</Name>` first right after `v`.
    assert(line.subrange(0, 6) =~= open);
    assert(occurs_at(line, open, 0));
    lemma_find_is_first(line, open, 0);
    assert(line.subrange(p2, p2 + 7) =~= close);
    assert forall|j: int| 0 <= j < p2 implies !occurs_at(line, close, j) by {
        if occurs_at(line, close, j) {
            let w = line.subrange(j, j + 7);
            assert(w[0] == line[j]);
            assert(w[1] == line[j + 1]);
        }
    }
    lemma_find_is_first(line, close, p2);
    assert(kind(m.level, line) == LineKind::Name);
    assert(line.subrange(6, p2) =~= v);
    lemma_row_begins_with_cd(step(m, line));
}

/// A conversion that has been run over lines.
pub struct Converted {
    /// The rows written.
    pub rows: Vec<Vec<u8>>,
    /// The date complaints written.
    pub complaints: Vec<Vec<u8>>,
    /// The code and message of the conversion.
    pub result: Execx,
}

/// What reading one line gives back besides the new state.
pub struct LineOutput {
    /// A complaint about a date that could not be converted.
    pub date_error: Option<Vec<u8>>,
    /// A row of the output.
    pub record: Option<Vec<u8>>,
    /// Whether more lines have been read than the export has rows.
    pub stop: bool,
}

/// The scan of an export.
pub struct Scan {
    level: Level,
    cd: Vec<u8>,
    dir: Vec<u8>,
    name: Vec<u8>,
    date: Vec<u8>,
    size: Vec<u8>,
    files: u64,
    lines: u64,
    limit: u64,
    code: u32,
    message: String,
}

impl View for Scan {
    type V = ScanModel;

    closed spec fn view(&self) -> ScanModel {
        ScanModel {
            level: self.level,
            cd: self.cd@,
            dir: self.dir@,
            name: self.name@,
            date: self.date@,
            size: self.size@,
            files: self.files as nat,
            lines: self.lines as nat,
            limit: self.limit as nat,
            code: self.code,
            message: self.message@,
        }
    }
}

/// What `line` is taken for at `level` (see `kind`).
pub fn classify(level: Level, line: &[u8]) -> (k: LineKind)
    ensures
        k == kind(level, line@),
{
    proof {
        reveal_strlit("<Cd>");
        reveal_strlit("<Directory>");
        reveal_strlit("<File>");
        reveal_strlit("</File>");
        reveal_strlit("<Name>");
        reveal_strlit("<FullName>");
        reveal_strlit("<Date>");
        reveal_strlit("<Size>");
    }
    if contains_bytes(line, ascii_bytes("<Cd>")) {
        LineKind::CdOpen
    } else if contains_bytes(line, ascii_bytes("<Directory>")) {
        LineKind::DirectoryOpen
    } else if contains_bytes(line, ascii_bytes("<File>")) {
        LineKind::FileOpen
    } else if contains_bytes(line, ascii_bytes("</File>")) {
        LineKind::FileClose
    } else if contains_bytes(line, ascii_bytes("<Name>")) {
        LineKind::Name
    } else if contains_bytes(line, ascii_bytes("<FullName>")) {
        LineKind::FullName
    } else if level == Level::File && contains_bytes(line, ascii_bytes("<Date>")) {
        LineKind::Date
    } else if level == Level::File && contains_bytes(line, ascii_bytes("<Size>")) {
        LineKind::Size
    } else {
        LineKind::Other
    }
}

/// Whether the first `close` comes after the end of the first `open`.
fn tag_well_formed_bytes(line: &[u8], open: &[u8], close: &[u8]) -> (r: bool)
    ensures
        r == tag_well_formed(line@, open@, close@),
{
    match (find_bytes(line, open), find_bytes(line, close)) {
        (Some(p), Some(q)) => p <= q && q - p >= open.len(),
        _ => false,
    }
}

/// The text between the first `open` and the first `close`.
fn tag_text_bytes(line: &[u8], open: &[u8], close: &[u8]) -> (r: Vec<u8>)
    requires
        tag_well_formed(line@, open@, close@),
    ensures
        r@ == tag_text(line@, open@, close@),
{
    let p = match find_bytes(line, open) {
        Some(p) => p,
        None => 0,
    };
    let q = match find_bytes(line, close) {
        Some(q) => q,
        None => 0,
    };
    slice_to_vec(slice_subrange(line, p + open.len(), q))
}

/// `v`, or `fallback` when `v` is empty.
fn or_else_bytes(v: Vec<u8>, fallback: &[u8]) -> (r: Vec<u8>)
    ensures
        r@ == or_else(v@, fallback@),
{
    if v.len() > 0 {
        v
    } else {
        slice_to_vec(fallback)
    }
}

/// The message that reports `files` rows written.
fn files_message_string(files: u64) -> (s: String)
    ensures
        s@ == files_message(files as nat),
{
    let mut s = String::from_str("number of files : ");
    append_decimal(&mut s, files);
    s
}

impl Scan {
    /// The scan of an export of `rows_num` rows, before its first line.
    pub fn new(rows_num: u64) -> (s: Scan)
        ensures
            s@ == initial(rows_num as nat),
            well_formed(s@),
    {
        proof {
            reveal_strlit(" ");
        }
        Scan {
            level: Level::Start,
            cd: Vec::new(),
            dir: Vec::new(),
            name: slice_to_vec(ascii_bytes(" ")),
            date: Vec::new(),
            size: Vec::new(),
            files: 0,
            lines: 0,
            limit: rows_num,
            code: 0,
            message: String::from_str("test of exec "),
        }
    }

    /// The number of lines read so far.
    pub fn lines_read(&self) -> (r: u64)
        ensures
            r as nat == self@.lines,
    {
        self.lines
    }

    /// Whether `line` can be read now (see `accepts`).
    pub fn accepts(&self, line: &[u8]) -> (r: bool)
        ensures
            r == accepts(self@, line@),
    {
        proof {
            reveal_strlit("<Name>");
            reveal_strlit("</Name>");
            reveal_strlit("<FullName>");
            reveal_strlit("</FullName>");
            reveal_strlit("<Date>");
            reveal_strlit("</Date>");
            reveal_strlit("<Size>");
            reveal_strlit("</Size>");
        }
        match classify(self.level, line) {
            LineKind::Name => tag_well_formed_bytes(
                line,
                ascii_bytes("<Name>"),
                ascii_bytes("</Name>"),
            ),
            LineKind::FullName => tag_well_formed_bytes(
                line,
                ascii_bytes("<FullName>"),
                ascii_bytes("</FullName>"),
            ),
            LineKind::Date => tag_well_formed_bytes(
                line,
                ascii_bytes("<Date>"),
                ascii_bytes("</Date>"),
            ),
            LineKind::Size => tag_well_formed_bytes(
                line,
                ascii_bytes("<Size>"),
                ascii_bytes("</Size>"),
            ),
            _ => true,
        }
    }

    /// The row written at `</File>`, and the complaint about its date when
    /// the date cannot be converted; the new date of the file.
    fn close_file(&self) -> (r: (Vec<u8>, Option<Vec<u8>>, Vec<u8>))
        ensures
            r.0@ == row(self@),
            match r.1 {
                Some(e) => convert_date(self@.date) is None && e@ == date_complaint(self@),
                None => convert_date(self@.date) is Some,
            },
            r.2@ == row_date(self@.date),
    {
        proof {
            reveal_strlit("|");
            reveal_strlit(" ");
            reveal_strlit("not valid date saved for: ");
        }
        let converted = convert_date_bytes(self.date.as_slice());
        let complaint = match &converted {
            Some(_) => None,
            None => {
                let mut e: Vec<u8> = slice_to_vec(ascii_bytes("not valid date saved for: "));
                append_bytes(&mut e, self.cd.as_slice());
                append_bytes(&mut e, ascii_bytes(" "));
                append_bytes(&mut e, self.name.as_slice());
                append_bytes(&mut e, ascii_bytes(" "));
                append_bytes(&mut e, self.dir.as_slice());
                append_bytes(&mut e, ascii_bytes(" "));
                append_bytes(&mut e, self.size.as_slice());
                append_bytes(&mut e, ascii_bytes(" "));
                append_bytes(&mut e, self.date.as_slice());
                assert(e@ =~= date_complaint(self@));
                Some(e)
            },
        };
        let new_date = match converted {
            Some(c) => c,
            None => slice_to_vec(self.date.as_slice()),
        };
        let mut out: Vec<u8> = slice_to_vec(self.cd.as_slice());
        append_bytes(&mut out, ascii_bytes("|"));
        append_bytes(&mut out, self.name.as_slice());
        append_bytes(&mut out, ascii_bytes("|"));
        append_bytes(&mut out, self.dir.as_slice());
        append_bytes(&mut out, ascii_bytes("|"));
        append_bytes(&mut out, self.size.as_slice());
        append_bytes(&mut out, ascii_bytes("|"));
        append_bytes(&mut out, new_date.as_slice());
        assert(out@ =~= row(self@));
        (out, complaint, new_date)
    }

    /// Reads one line of the export.
    ///
    /// The state becomes `step(old, line)`. At `</File>` a row comes back,
    /// and with it a complaint when the file's date cannot be converted;
    /// no other line gives either. `stop` tells whether more lines have now
    /// been read than the export has rows.
    pub fn on_line(&mut self, line: &[u8]) -> (out: LineOutput)
        requires
            well_formed(old(self)@),
            old(self)@.lines < u64::MAX,
            accepts(old(self)@, line@),
        ensures
            final(self)@ == step(old(self)@, line@),
            well_formed(final(self)@),
            out.stop == (final(self)@.lines > final(self)@.limit),
            kind(old(self)@.level, line@) == LineKind::FileClose ==> {
                &&& out.record matches Some(r) && r@ == row(old(self)@)
                &&& match out.date_error {
                    Some(e) => convert_date(old(self)@.date) is None && e@ == date_complaint(
                        old(self)@,
                    ),
                    None => convert_date(old(self)@.date) is Some,
                }
            },
            kind(old(self)@.level, line@) != LineKind::FileClose ==> out.record is None
                && out.date_error is None,
    {
        proof {
            reveal_strlit("<Name>");
            reveal_strlit("</Name>");
            reveal_strlit("<FullName>");
            reveal_strlit("</FullName>");
            reveal_strlit("<Date>");
            reveal_strlit("</Date>");
            reveal_strlit("<Size>");
            reveal_strlit("</Size>");
            reveal_strlit("***no /Name or null value***");
            reveal_strlit("***no /Date or null value***");
            reveal_strlit("/");
        }
        let k = classify(self.level, line);
        self.lines = self.lines + 1;
        let stop = self.lines > self.limit;
        let mut record: Option<Vec<u8>> = None;
        let mut date_error: Option<Vec<u8>> = None;
        match k {
            LineKind::CdOpen => {
                self.level = Level::Cd;
            },
            LineKind::DirectoryOpen => {
                self.level = Level::Dir;
            },
            LineKind::FileOpen => {
                self.level = Level::File;
            },
            LineKind::FileClose => {
                let (out, complaint, new_date) = self.close_file();
                record = Some(out);
                date_error = complaint;
                self.date = new_date;
                self.files = self.files + 1;
                self.message = files_message_string(self.files);
                self.level = Level::Dir;
            },
            LineKind::Name => {
                let v = tag_text_bytes(line, ascii_bytes("<Name>"), ascii_bytes("</Name>"));
                match self.level {
                    Level::Cd => {
                        self.cd = or_else_bytes(v, ascii_bytes("***no /Name or null value***"));
                    },
                    Level::Dir => {
                        self.dir = or_else_bytes(v, ascii_bytes("/"));
                    },
                    Level::File => {
                        self.date = Vec::new();
                        self.size = Vec::new();
                    },
                    Level::Start => {},
                }
            },
            LineKind::FullName => {
                let v = tag_text_bytes(
                    line,
                    ascii_bytes("<FullName>"),
                    ascii_bytes("</FullName>"),
                );
                if v.len() > 0 {
                    if self.level == Level::Dir {
                        self.dir = slice_to_vec(v.as_slice());
                    }
                    self.name = v;
                }
            },
            LineKind::Date => {
                let v = tag_text_bytes(line, ascii_bytes("<Date>"), ascii_bytes("</Date>"));
                self.date = or_else_bytes(v, ascii_bytes("***no /Date or null value***"));
            },
            LineKind::Size => {
                let v = tag_text_bytes(line, ascii_bytes("<Size>"), ascii_bytes("</Size>"));
                self.size = or_else_bytes(v, ascii_bytes("***no /Date or null value***"));
            },
            LineKind::Other => {},
        }
        LineOutput { date_error, record, stop }
    }

    /// Records that reading the export failed: the code becomes 1 and the
    /// message says so.
    pub fn on_read_error(&mut self)
        requires
            well_formed(old(self)@),
        ensures
            final(self)@ == (ScanModel { code: 1, message: read_error_message(), ..old(self)@ }),
            well_formed(final(self)@),
    {
        self.code = 1;
        self.message = String::from_str("error reading xml file: do file i and iconv");
    }

    /// The result of the conversion: its code and message.
    pub fn finish(&self) -> (r: Execx)
        ensures
            r.errcd == self@.code,
            r.errval@ == self@.message,
    {
        Execx { errcd: self.code, errval: String::from_str(self.message.as_str()) }
    }
}

} // verus!

verus! {

/// Converts an export of `rows_num` rows given as its `lines`, reading them
/// one after the other as `convert` says: the rows, the date complaints and
/// the result are those of `convert(initial(rows_num), lines)`.
///
/// Every line read must be readable (see `accepts`); the lines after the one
/// where reading stops are not looked at.
pub fn convert_lines(lines: &Vec<Vec<u8>>, rows_num: u64) -> (r: Converted)
    requires
        convert(initial(rows_num as nat), views(lines@)).accepted,
    ensures
        views(r.rows@) == convert(initial(rows_num as nat), views(lines@)).rows,
        views(r.complaints@) == convert(
            initial(rows_num as nat),
            views(lines@),
        ).complaints,
        r.result.errcd == convert(initial(rows_num as nat), views(lines@)).state.code,
        r.result.errval@ == convert(initial(rows_num as nat), views(lines@)).state.message,
{
    let ghost all = views(lines@);
    let ghost goal = convert(initial(rows_num as nat), all);
    let mut scan = Scan::new(rows_num);
    let mut rows: Vec<Vec<u8>> = Vec::new();
    let mut complaints: Vec<Vec<u8>> = Vec::new();
    let mut i: usize = 0;
    let mut stopped = false;
    assert(all.skip(0) =~= all);
    assert(views(rows@) =~= Seq::<Seq<u8>>::empty());
    assert(goal.rows =~= views(rows@) + goal.rows);
    assert(goal.complaints =~= views(complaints@) + goal.complaints);
    while i < lines.len() && !stopped
        invariant
            i <= lines@.len(),
            all == views(lines@),
            goal == convert(initial(rows_num as nat), all),
            well_formed(scan@),
            scan@.lines == i,
            scan@.limit == rows_num,
            stopped ==> {
                &&& goal.state == scan@
                &&& goal.rows == views(rows@)
                &&& goal.complaints == views(complaints@)
            },
            !stopped ==> {
                let rest = convert(scan@, all.skip(i as int));
                &&& goal.state == rest.state
                &&& goal.rows == views(rows@) + rest.rows
                &&& goal.complaints == views(complaints@) + rest.complaints
                &&& rest.accepted
            },
        decreases lines@.len() - i,
    {
        let ghost m = scan@;
        let ghost rest = all.skip(i as int);
        assert(rest[0] == lines@[i as int]@);
        assert(rest.drop_first() =~= all.skip(i + 1));
        let out = scan.on_line(lines[i].as_slice());
        let ghost before_rows = views(rows@);
        let ghost before_complaints = views(complaints@);
        match out.record {
            Some(r) => {
                rows.push(r);
            },
            None => {},
        }
        match out.date_error {
            Some(e) => {
                complaints.push(e);
            },
            None => {},
        }
        assert(views(rows@) =~= before_rows + rows_of_line(m, rest[0]));
        assert(views(complaints@) =~= before_complaints + complaints_of_line(m, rest[0]));
        i = i + 1;
        if out.stop {
            stopped = true;
            assert(goal.rows =~= views(rows@));
            assert(goal.complaints =~= views(complaints@));
        } else {
            assert(goal.rows =~= views(rows@) + convert(scan@, all.skip(i as int)).rows);
            assert(goal.complaints =~= views(complaints@) + convert(
                scan@,
                all.skip(i as int),
            ).complaints);
        }
    }
    if !stopped {
        assert(all.skip(i as int) =~= Seq::<Seq<u8>>::empty());
        assert(goal.rows =~= views(rows@));
        assert(goal.complaints =~= views(complaints@));
    }
    Converted { rows, complaints, result: scan.finish() }
}

} // verus!
