use ims_rs::csv_output::{cmds_header, CsvOutput, TAB};

fn strings(v: &[&str]) -> Vec<String> {
    v.iter().map(|s| s.to_string()).collect()
}

#[test]
fn header_names_each_candidate_twice() {
    let row = cmds_header(&strings(&["cjxl_d(1)", "avif_q(6,20)"]));
    assert_eq!(row, vec!["", "", "cjxl_d(1)", "avif_q(6,20)", "cjxl_d(1)", "avif_q(6,20)"]);
    assert_eq!(cmds_header(&strings(&[])), vec!["", ""]);
    for n in 0..5 {
        let cmds = vec!["c".to_string(); n];
        assert_eq!(cmds_header(&cmds).len(), 2 + 2 * n);
    }
}

#[test]
fn records_are_separated_by_tabs() {
    let mut out = CsvOutput::new();
    assert!(out.buffer.is_empty());
    out.write_record(&strings(&["a.png", "100", "90"])).unwrap();
    assert_eq!(out.buffer, b"a.png\t100\t90\n");
    out.write_record(&strings(&["b.png", "", "7"])).unwrap();
    assert_eq!(out.buffer, b"a.png\t100\t90\nb.png\t\t7\n");
    let bytes = out.take();
    assert_eq!(bytes, b"a.png\t100\t90\nb.png\t\t7\n");
    assert!(out.buffer.is_empty());
}

#[test]
fn fields_are_quoted_where_they_have_to_be() {
    let mut out = CsvOutput::new();
    out.write_record(&strings(&["a\tb", "say \"x\"", "c,d"])).unwrap();
    assert_eq!(out.buffer, b"\"a\tb\"\t\"say \"\"x\"\"\"\tc,d\n");
}

#[test]
fn header_is_written_as_a_record() {
    let mut out = CsvOutput::new();
    out.write_cmds_header(&strings(&["x", "y"])).unwrap();
    assert_eq!(out.buffer, b"\t\tx\ty\tx\ty\n");
}

#[test]
fn records_of_different_widths_can_follow_each_other() {
    let mut out = CsvOutput::new();
    out.write_record(&strings(&["a"])).unwrap();
    out.write_record(&strings(&["b", "c"])).unwrap();
    out.write_record(&strings(&[])).unwrap();
    out.write_record(&strings(&[""])).unwrap();
    assert_eq!(out.buffer, b"a\nb\tc\n\"\"\n\"\"\n");
}

#[test]
fn failed_encoding_leaves_the_output_as_it_was() {
    let mut out = b"kept".to_vec();
    let broken = csv::Error::from(std::io::Error::new(std::io::ErrorKind::Other, "full"));
    let r = ims_rs::csv_output::add_encoded(&mut out, Err(broken));
    assert!(matches!(r, Err(ims_rs::error::Failure::Io)));
    assert_eq!(out, b"kept");
    let r = ims_rs::csv_output::add_encoded(&mut out, Ok(b" more".to_vec()));
    assert!(r.is_ok());
    assert_eq!(out, b"kept more");
}

#[test]
fn writing_a_record_always_succeeds() {
    assert_eq!(TAB, b'\t');
    let mut out = CsvOutput::new();
    let long = "x".repeat(100_000);
    let rows: Vec<Vec<String>> = vec![
        vec![],
        vec![String::new()],
        vec!["\n".to_string(), "\r".to_string(), "\"".to_string()],
        vec![long.clone(), "\u{1F3A8}".to_string()],
        vec!["a".to_string(); 500],
    ];
    for row in &rows {
        assert!(out.write_record(row).is_ok());
        assert!(out.write_cmds_header(row).is_ok());
    }
    assert!(out.buffer.len() > 200_000);
}
