use cdtree_csv::execpress::{execpress, execpress_verdict};
use cdtree_csv::panel::{Tone, Xmlparse};
use cdtree_csv::scan::{classify, Level, LineKind, Scan};

fn s(v: &[u8]) -> String {
    String::from_utf8(v.to_vec()).unwrap()
}

/// Runs the scan as the window does, collecting rows and complaints.
fn convert(lines: &[&str], rows_num: u64) -> (Vec<String>, Vec<String>, u32, String, u64) {
    let mut scan = Scan::new(rows_num);
    let mut rows = Vec::new();
    let mut complaints = Vec::new();
    for line in lines {
        assert!(scan.accepts(line.as_bytes()));
        let out = scan.on_line(line.as_bytes());
        if let Some(e) = out.date_error {
            complaints.push(s(&e));
        }
        if let Some(r) = out.record {
            rows.push(s(&r));
        }
        if out.stop {
            break;
        }
    }
    let read = scan.lines_read();
    let x = scan.finish();
    (rows, complaints, x.errcd, x.errval, read)
}

const EXPORT: &[&str] = &[
    "<?xml version=\"1.0\"?>\n",
    "<Cd>\n",
    "  <Name>Backup01</Name>\n",
    "  <Directory>\n",
    "    <Name>docs</Name>\n",
    "    <FullName>/docs</FullName>\n",
    "    <File>\n",
    "      <Name>a.txt</Name>\n",
    "      <FullName>a.txt</FullName>\n",
    "      <Size>123</Size>\n",
    "      <Date>3/5/2021 1:02:03 PM</Date>\n",
    "    </File>\n",
    "    <File>\n",
    "      <Name>b.txt</Name>\n",
    "      <FullName>b.txt</FullName>\n",
    "      <Size></Size>\n",
    "      <Date>yesterday</Date>\n",
    "    </File>\n",
    "  </Directory>\n",
    "</Cd>\n",
];

#[test]
fn export_becomes_rows() {
    let (rows, complaints, code, message, read) = convert(EXPORT, 20);
    assert_eq!(
        rows,
        vec![
            "Backup01|a.txt|/docs|123|2021-03-05 13:02:03.000".to_string(),
            "Backup01|b.txt|/docs|***no /Date or null value***|yesterday".to_string(),
        ]
    );
    assert_eq!(
        complaints,
        vec!["not valid date saved for: Backup01 b.txt /docs ***no /Date or null value*** yesterday".to_string()]
    );
    assert_eq!(code, 0);
    assert_eq!(message, "number of files : 2");
    assert_eq!(read, 20);
}

#[test]
fn row_count_is_reported() {
    let (rows, _, _, message, _) = convert(EXPORT, 20);
    assert_eq!(message, format!("number of files : {}", rows.len()));
    let (rows, _, _, message, _) = convert(&EXPORT[..6], 20);
    assert!(rows.is_empty());
    assert_eq!(message, "test of exec ");
}

#[test]
fn reading_stops_after_the_row_count() {
    let (rows, _, _, message, read) = convert(EXPORT, 11);
    assert_eq!(read, 12);
    assert_eq!(rows.len(), 1);
    assert_eq!(message, "number of files : 1");
}

#[test]
fn empty_names_fall_back() {
    let lines = [
        "<Cd>\n",
        "<Name></Name>\n",
        "<Directory>\n",
        "<Name></Name>\n",
        "<FullName></FullName>\n",
        "<File>\n",
        "<Date></Date>\n",
        "</File>\n",
    ];
    let (rows, complaints, _, _, _) = convert(&lines, 100);
    assert_eq!(rows, vec!["***no /Name or null value***| |/||***no /Date or null value***".to_string()]);
    assert_eq!(complaints.len(), 1);
}

#[test]
fn a_converted_date_is_not_converted_twice() {
    let lines = [
        "<Directory>\n",
        "<File>\n",
        "<Date>1/1/2001 1:01:01 AM</Date>\n",
        "</File>\n",
        "</File>\n",
    ];
    let (rows, complaints, _, _, _) = convert(&lines, 100);
    assert_eq!(rows, vec!["| |||2001-01-01 01:01:01.000".to_string(); 2]);
    assert_eq!(
        complaints,
        vec![format!("not valid date saved for: {} {} {} {} {}", "", " ", "", "", "2001-01-01 01:01:01.000")]
    );
}

#[test]
fn name_inside_a_file_clears_date_and_size() {
    let lines = [
        "<File>\n",
        "<Size>9</Size>\n",
        "<Date>1/1/2001 1:01:01 AM</Date>\n",
        "<Name>x</Name>\n",
        "</File>\n",
    ];
    let (rows, _, _, _, _) = convert(&lines, 100);
    assert_eq!(rows, vec!["| |||".to_string()]);
}

#[test]
fn lines_are_classified_by_their_first_tag_test() {
    assert_eq!(classify(Level::Dir, b"<Cd><File>"), LineKind::CdOpen);
    assert_eq!(classify(Level::Dir, b"<Directory>"), LineKind::DirectoryOpen);
    assert_eq!(classify(Level::Dir, b"<File>"), LineKind::FileOpen);
    assert_eq!(classify(Level::Dir, b"</File><Name>"), LineKind::FileClose);
    assert_eq!(classify(Level::Dir, b"<FullName>a</FullName>"), LineKind::FullName);
    assert_eq!(classify(Level::Dir, b"<Date>x</Date>"), LineKind::Other);
    assert_eq!(classify(Level::File, b"<Date>x</Date>"), LineKind::Date);
    assert_eq!(classify(Level::File, b"<Size>x</Size>"), LineKind::Size);
    assert_eq!(classify(Level::Start, b"</Directory>"), LineKind::Other);
}

#[test]
fn malformed_elements_are_refused() {
    let scan = Scan::new(10);
    assert!(!scan.accepts(b"<Name>abc\n"));
    assert!(!scan.accepts(b"</Name><Name>abc\n"));
    assert!(!scan.accepts(b"<FullName>abc</Full\n"));
    assert!(scan.accepts(b"<Name>abc</Name>\n"));
    assert!(scan.accepts(b"<Date>abc\n"));
}

#[test]
fn read_error_is_reported() {
    let mut scan = Scan::new(10);
    scan.on_line(b"<Cd>\n");
    scan.on_read_error();
    let x = scan.finish();
    assert_eq!(x.errcd, 1);
    assert_eq!(x.errval, "error reading xml file: do file i and iconv");
}

#[test]
fn execpress_verdict_codes() {
    assert_eq!(execpress_verdict("a.xml", true, true, 50), (5, "the output file exists:a.xml__tmpcvs".to_string()));
    assert_eq!(execpress_verdict("a.xml", false, false, 50), (4, "the xml file does not exist".to_string()));
    assert_eq!(execpress_verdict("a.xml", false, true, 9), (3, "The number of rows is less than 10".to_string()));
    assert_eq!(execpress_verdict("a.xml", false, true, 10), (0, "all good and now process execution".to_string()));
}

#[test]
fn execpress_looks_on_disk() {
    assert_eq!(
        execpress("/surely/no/such/export.xml".to_string(), 100),
        (4, "the xml file does not exist".to_string())
    );
    assert_eq!(execpress("/".to_string(), 3), (3, "The number of rows is less than 10".to_string()));
    assert_eq!(execpress("/".to_string(), 10), (0, "all good and now process execution".to_string()));
}

#[test]
fn window_starts_empty() {
    let x = Xmlparse::new();
    assert_eq!(x.xml_value, "--");
    assert_eq!(x.msg_value, "no message");
    assert_eq!(x.rows_num, 0);
    assert_eq!(x.tone, Tone::Good);
    assert_eq!(Xmlparse::title(), "CDtree xml to vertical bar separated csv for input into sqlite3 -- iced");
}

#[test]
fn choosing_an_export() {
    let mut x = Xmlparse::new();
    assert!(!x.input_checked(2, "cancelled".to_string(), "a.xml".to_string(), true));
    assert_eq!(x.msg_value, "cancelled");
    assert_eq!(x.tone, Tone::Bad);
    assert_eq!(x.xml_value, "--");
    assert!(!x.input_checked(0, "ok".to_string(), "a.xml".to_string(), false));
    assert_eq!(x.msg_value, "xml file does not exist: a.xml");
    assert_eq!(x.tone, Tone::Bad);
    assert!(x.input_checked(0, "ok".to_string(), "a.xml".to_string(), true));
    assert_eq!(x.msg_value, "ok");
    assert_eq!(x.tone, Tone::Good);
    assert_eq!(x.xml_value, "a.xml");
    x.rows_counted(Ok(42));
    assert_eq!(x.rows_num, 42);
    assert_eq!(x.msg_value, "got xml file and retrieved its number of rows");
    x.rows_counted(Err("Kind(InvalidData)".to_string()));
    assert_eq!(x.msg_value, "error reading xml Kind(InvalidData) ");
    assert_eq!(x.tone, Tone::Bad);
    assert_eq!(x.rows_num, 42);
    assert!(!x.xml_pressed(0, "ok".to_string(), "/surely/no/such/export.xml".to_string()));
    assert_eq!(x.msg_value, "xml file does not exist: /surely/no/such/export.xml");
}

#[test]
fn pressing_exec() {
    let mut x = Xmlparse::new();
    assert!(x.input_checked(0, "ok".to_string(), "a.xml".to_string(), true));
    x.rows_counted(Ok(12));
    assert!(x.exec_checked(false, true));
    assert_eq!(x.msg_value, "all good and now process execution");
    assert_eq!(x.tone, Tone::Good);
    assert!(!x.exec_checked(true, true));
    assert_eq!(x.msg_value, "the output file exists:a.xml__tmpcvs");
    assert_eq!(x.tone, Tone::Bad);
    assert!(!x.exec_pressed());
    assert_eq!(x.msg_value, "the xml file does not exist");
}

#[test]
fn conversion_results_are_shown() {
    let mut x = Xmlparse::new();
    let mut scan = Scan::new(5);
    scan.on_line(b"</File>\n");
    x.exec_found(Some(scan.finish()));
    assert_eq!(x.msg_value, "number of files : 1");
    assert_eq!(x.tone, Tone::Good);
    let mut failed = Scan::new(5);
    failed.on_read_error();
    x.exec_found(Some(failed.finish()));
    assert_eq!(x.tone, Tone::Bad);
    x.exec_found(None);
    assert_eq!(x.msg_value, "error in copyx copyit routine");
    assert_eq!(x.tone, Tone::Bad);
}

fn bytes_lines(lines: &[&str]) -> Vec<Vec<u8>> {
    lines.iter().map(|l| l.as_bytes().to_vec()).collect()
}

#[test]
fn convert_lines_matches_the_line_by_line_scan() {
    let c = cdtree_csv::scan::convert_lines(&bytes_lines(EXPORT), 20);
    let (rows, complaints, code, message, _) = convert(EXPORT, 20);
    let got_rows: Vec<String> = c.rows.iter().map(|r| s(r)).collect();
    let got_complaints: Vec<String> = c.complaints.iter().map(|r| s(r)).collect();
    assert_eq!(got_rows, rows);
    assert_eq!(got_complaints, complaints);
    assert_eq!(c.result.errcd, code);
    assert_eq!(c.result.errval, message);
}

#[test]
fn lines_after_the_row_count_change_nothing() {
    let mut longer = bytes_lines(&EXPORT[..12]);
    longer.push(b"<Name>never closed\n".to_vec());
    longer.push(vec![0xff, 0xfe, b'\n']);
    longer.push(b"</File>\n".to_vec());
    let cut = cdtree_csv::scan::convert_lines(&bytes_lines(&EXPORT[..12]), 11);
    let full = cdtree_csv::scan::convert_lines(&longer, 11);
    assert_eq!(full.rows, cut.rows);
    assert_eq!(full.complaints, cut.complaints);
    assert_eq!(full.result.errcd, cut.result.errcd);
    assert_eq!(full.result.errval, cut.result.errval);
    assert_eq!(full.rows.len(), 1);
}

#[test]
fn output_file_name() {
    assert_eq!(cdtree_csv::execpress::target_path("c:/x/export.xml"), "c:/x/export.xml__tmpcvs");
}
