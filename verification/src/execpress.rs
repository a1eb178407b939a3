//! The checks made before a conversion starts.
use vstd::prelude::*;

verus! {

/// The name of the file that a conversion of `xml_value` writes its rows to.
pub open spec fn target_name(xml_value: Seq<char>) -> Seq<char> {
    xml_value + "__tmpcvs"@
}

/// The code and message that the checks before a conversion give, from the
/// export's name, whether the output file already exists, whether the
/// export exists, and its number of rows.
///
/// An existing output file is reported first (code 5), then a missing export
/// (code 4), then an export of fewer than 10 rows (code 3); otherwise the
/// conversion may start (code 0).
pub open spec fn execpress_outcome(
    xml_value: Seq<char>,
    target_exists: bool,
    xml_exists: bool,
    rows_num: u64,
) -> (u32, Seq<char>) {
    if target_exists {
        (5, "the output file exists:"@ + target_name(xml_value))
    } else if !xml_exists {
        (4, "the xml file does not exist"@)
    } else if rows_num < 10 {
        (3, "The number of rows is less than 10"@)
    } else {
        (0, "all good and now process execution"@)
    }
}

/// A conversion may start (code 0) exactly when the output file does not
/// exist yet, the export exists and it has at least 10 rows; every refusal
/// has a code of its own.
pub proof fn lemma_execpress_codes(
    xml_value: Seq<char>,
    target_exists: bool,
    xml_exists: bool,
    rows_num: u64,
)
    ensures
        (execpress_outcome(xml_value, target_exists, xml_exists, rows_num).0 == 0) == (!target_exists
            && xml_exists && rows_num >= 10),
        execpress_outcome(xml_value, target_exists, xml_exists, rows_num).0 == 5 <==> target_exists,
        execpress_outcome(xml_value, target_exists, xml_exists, rows_num).0 == 4 <==> (!target_exists
            && !xml_exists),
        execpress_outcome(xml_value, target_exists, xml_exists, rows_num).0 == 3 <==> (!target_exists
            && xml_exists && rows_num < 10),
{
}

/// Whether a file or directory exists at `path`, as
/// `std::path::Path::exists` says. Nothing is stated of the answer: it
/// depends on what is on disk at the time of the call.
#[verifier::external_body]
pub(crate) fn path_exists(path: &str) -> bool {
    std::path::Path::new(path).exists()
}

/// The name of the file that a conversion of `xml_value` writes its rows to
/// (see `target_name`).
pub fn target_path(xml_value: &str) -> (r: String)
    ensures
        r@ == target_name(xml_value@),
{
    String::from_str(xml_value).concat("__tmpcvs")
}

/// The code and message of the checks before a conversion, given what was
/// found on disk (see `execpress_outcome`).
pub fn execpress_verdict(xml_value: &str, target_exists: bool, xml_exists: bool, rows_num: u64) -> (r:
    (u32, String))
    ensures
        (r.0, r.1@) == execpress_outcome(xml_value@, target_exists, xml_exists, rows_num),
{
    if target_exists {
        let target = target_path(xml_value);
        (5, String::from_str("the output file exists:").concat(target.as_str()))
    } else if !xml_exists {
        (4, String::from_str("the xml file does not exist"))
    } else if rows_num < 10 {
        (3, String::from_str("The number of rows is less than 10"))
    } else {
        (0, String::from_str("all good and now process execution"))
    }
}

/// Checks whether a conversion of the export `xml_value` of `rows_num`
/// rows may start: the output file `xml_value + "__tmpcvs"` must not exist
/// yet, the export must exist and have at least 10 rows.
///
/// The answer is the one `execpress_outcome` gives for what was found on
/// disk when the call was made.
pub fn execpress(xml_value: String, rows_num: u64) -> (r: (u32, String))
    ensures
        exists|target_exists: bool, xml_exists: bool|
            (r.0, r.1@) == execpress_outcome(xml_value@, target_exists, xml_exists, rows_num),
{
    let target = target_path(xml_value.as_str());
    let target_exists = path_exists(target.as_str());
    let xml_exists = if target_exists {
        true
    } else {
        path_exists(xml_value.as_str())
    };
    execpress_verdict(xml_value.as_str(), target_exists, xml_exists, rows_num)
}

} // verus!
