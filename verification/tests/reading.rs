use csv_sniffer::metadata::{Comment, Dialect, Escape, Header, Metadata, Quote, Terminator};
use csv_sniffer::reader::ReaderSettings;
use csv_sniffer::{Sniffer, Type};

fn plain() -> Dialect {
    Dialect {
        delimiter: b',',
        header: Header { has_header_row: false, num_preamble_rows: 0 },
        terminator: Terminator::CRLF,
        quote: Quote::Enabled(b'"'),
        doublequote_escapes: true,
        escape: Escape::Disabled,
        comment: Comment::Disabled,
        flexible: false,
    }
}

fn read(dialect: &Dialect, data: &str) -> Result<Vec<Vec<String>>, csv::Error> {
    let mut reader = dialect.reader_builder().from_reader(dialect.skip_preamble(data.as_bytes()));
    let mut records = Vec::new();
    for record in reader.records() {
        records.push(record?.iter().map(|f| f.to_string()).collect());
    }
    Ok(records)
}

fn table(rows: &[&[&str]]) -> Vec<Vec<String>> {
    rows.iter().map(|r| r.iter().map(|f| f.to_string()).collect()).collect()
}

#[test]
fn settings_follow_the_dialect() {
    let dialect = Dialect {
        delimiter: b';',
        header: Header { has_header_row: true, num_preamble_rows: 3 },
        terminator: Terminator::Any(b'\n'),
        quote: Quote::Enabled(b'\''),
        doublequote_escapes: false,
        escape: Escape::Enabled(b'\\'),
        comment: Comment::Enabled(b'#'),
        flexible: true,
    };
    assert_eq!(
        dialect.reader_settings(),
        ReaderSettings {
            delimiter: b';',
            has_headers: true,
            terminator: Terminator::Any(b'\n'),
            escape: Some(b'\\'),
            double_quote: false,
            comment: Some(b'#'),
            flexible: true,
            quoting: true,
            quote: b'\'',
        }
    );
}

#[test]
fn settings_without_quoting_keep_the_default_quote() {
    let dialect = Dialect { quote: Quote::Disabled, ..plain() };
    assert_eq!(
        dialect.reader_settings(),
        ReaderSettings {
            delimiter: b',',
            has_headers: false,
            terminator: Terminator::CRLF,
            escape: None,
            double_quote: true,
            comment: None,
            flexible: false,
            quoting: false,
            quote: b'"',
        }
    );
}

#[test]
fn markers_convert_to_options() {
    assert_eq!(Option::<u8>::from(Escape::Enabled(b'\\')), Some(b'\\'));
    assert_eq!(Option::<u8>::from(Escape::Disabled), None);
    assert_eq!(Option::<u8>::from(Comment::Enabled(b'#')), Some(b'#'));
    assert_eq!(Option::<u8>::from(Comment::Disabled), None);
    let escape: Option<u8> = Escape::Enabled(b'!').into();
    assert_eq!(escape, Some(b'!'));
}

#[test]
fn reader_uses_the_defaults_of_a_plain_dialect() {
    let records = read(&plain(), "a,\"b,c\"\r\n\"d \"\"e\"\"\",f\n").unwrap();
    assert_eq!(records, table(&[&["a", "b,c"], &["d \"e\"", "f"]]));
}

#[test]
fn reader_uses_the_delimiter() {
    let dialect = Dialect { delimiter: b';', ..plain() };
    assert_eq!(read(&dialect, "a;b,c\n").unwrap(), table(&[&["a", "b,c"]]));
}

#[test]
fn reader_uses_the_header_flag() {
    let with = Dialect { header: Header { has_header_row: true, num_preamble_rows: 0 }, ..plain() };
    assert_eq!(read(&with, "h1,h2\na,b\n").unwrap(), table(&[&["a", "b"]]));
    assert_eq!(read(&plain(), "h1,h2\na,b\n").unwrap(), table(&[&["h1", "h2"], &["a", "b"]]));
}

#[test]
fn reader_uses_the_terminator() {
    let dialect = Dialect { terminator: Terminator::Any(b'$'), ..plain() };
    assert_eq!(read(&dialect, "a,b$c,d$").unwrap(), table(&[&["a", "b"], &["c", "d"]]));
    let dialect = Dialect { terminator: Terminator::Any(b'\n'), ..plain() };
    assert_eq!(read(&dialect, "a,b\r\nc,d\n").unwrap(), table(&[&["a", "b\r"], &["c", "d"]]));
    assert_eq!(read(&plain(), "a,b\r\nc,d\n").unwrap(), table(&[&["a", "b"], &["c", "d"]]));
}

#[test]
fn reader_uses_the_escape_byte() {
    let dialect = Dialect { escape: Escape::Enabled(b'\\'), doublequote_escapes: false, ..plain() };
    assert_eq!(read(&dialect, "\"a\\\"b\",c\n").unwrap(), table(&[&["a\"b", "c"]]));
    let dialect = Dialect { doublequote_escapes: false, ..plain() };
    assert_eq!(read(&dialect, "\"a\\\"b\",c\n").unwrap(), table(&[&["a\\b\"", "c"]]));
}

#[test]
fn reader_uses_the_doubling_flag() {
    let dialect = Dialect { doublequote_escapes: false, ..plain() };
    assert_eq!(read(&dialect, "\"a\"\"b\",c\n").unwrap(), table(&[&["a\"b\"", "c"]]));
    assert_eq!(read(&plain(), "\"a\"\"b\",c\n").unwrap(), table(&[&["a\"b", "c"]]));
}

#[test]
fn reader_uses_the_comment_byte() {
    let dialect = Dialect { comment: Comment::Enabled(b'#'), ..plain() };
    assert_eq!(read(&dialect, "a,b\n#c,d\ne,f\n").unwrap(), table(&[&["a", "b"], &["e", "f"]]));
    assert_eq!(
        read(&plain(), "a,b\n#c,d\ne,f\n").unwrap(),
        table(&[&["a", "b"], &["#c", "d"], &["e", "f"]])
    );
}

#[test]
fn reader_uses_the_flexible_flag() {
    let dialect = Dialect { flexible: true, ..plain() };
    assert_eq!(read(&dialect, "a,b\nc\n").unwrap(), table(&[&["a", "b"], &["c"]]));
    assert!(read(&plain(), "a,b\nc\n").is_err());
}

#[test]
fn reader_uses_the_quote_byte() {
    let dialect = Dialect { quote: Quote::Enabled(b'\''), ..plain() };
    assert_eq!(read(&dialect, "'a,b',\"c\n").unwrap(), table(&[&["a,b", "\"c"]]));
}

#[test]
fn reader_switches_quoting_off() {
    let dialect = Dialect { quote: Quote::Disabled, ..plain() };
    assert_eq!(read(&dialect, "\"a,b\",c\n").unwrap(), table(&[&["\"a", "b\"", "c"]]));
}

#[test]
fn reader_starts_after_the_preamble() {
    let dialect = Dialect { header: Header { has_header_row: true, num_preamble_rows: 2 }, ..plain() };
    let data = "A report\nof, many, things, and more\nh1,h2\na,b\nc,d\n";
    assert_eq!(dialect.skip_preamble(data.as_bytes()), b"h1,h2\na,b\nc,d\n");
    assert_eq!(read(&dialect, data).unwrap(), table(&[&["a", "b"], &["c", "d"]]));
}

fn generated(preamble: usize, rows: usize) -> String {
    let mut text = String::new();
    for i in 0..preamble {
        text.push_str(&format!("Notes on the survey, part {}\n", i));
    }
    text.push_str("city,population,area\n");
    for i in 0..rows {
        text.push_str(&format!("town {},{},{}.25\n", i, 1000 + i, i));
    }
    text
}

fn round_trip(preamble: usize, rows: usize) {
    let text = generated(preamble, rows);
    let m: Metadata = Sniffer::new().sniff_bytes(text.as_bytes()).unwrap();
    assert_eq!(m.dialect.header, Header { has_header_row: true, num_preamble_rows: preamble });
    assert_eq!(m.dialect.delimiter, b',');
    assert_eq!(m.num_fields, 3);
    assert_eq!(m.types, vec![Type::Text, Type::Integer, Type::Float]);
    let records = read(&m.dialect, &text).unwrap();
    assert_eq!(records.len(), rows);
    assert_eq!(records[0], vec!["town 0", "1000", "0.25"]);
    assert_eq!(records[rows - 1][0], format!("town {}", rows - 1));
}

#[test]
fn round_trip_without_preamble() {
    round_trip(0, 5);
}

#[test]
fn round_trip_with_preamble() {
    round_trip(1, 20);
    round_trip(3, 60);
    round_trip(4, 35);
}

#[test]
fn round_trip_with_quotes_and_crlf() {
    let mut text = String::new();
    for i in 0..4 {
        text.push_str(&format!("Remark {}\r\n", i));
    }
    text.push_str("\"label\",\"amount\"\r\n");
    for i in 0..50 {
        text.push_str(&format!("\"the \"\"{}\"\", and more\",\"{}\"\r\n", i, i + 2));
    }
    let m = Sniffer::new().sniff_bytes(text.as_bytes()).unwrap();
    assert_eq!(m.dialect.header, Header { has_header_row: true, num_preamble_rows: 4 });
    assert_eq!(m.dialect.quote, Quote::Enabled(b'"'));
    assert!(m.dialect.doublequote_escapes);
    assert_eq!(m.dialect.terminator, Terminator::CRLF);
    let records = read(&m.dialect, &text).unwrap();
    assert_eq!(records.len(), 50);
    assert_eq!(records[7], vec!["the \"7\", and more", "9"]);
}

#[test]
fn builder_converts_from_a_dialect() {
    let dialect = Dialect {
        delimiter: b'|',
        quote: Quote::Disabled,
        header: Header { has_header_row: true, num_preamble_rows: 0 },
        ..plain()
    };
    let builder = csv::ReaderBuilder::from(dialect);
    let mut reader = builder.from_reader("h|i\n\"a|b\n".as_bytes());
    let records: Vec<Vec<String>> = reader
        .records()
        .map(|r| r.unwrap().iter().map(|f| f.to_string()).collect())
        .collect();
    assert_eq!(records, table(&[&["\"a", "b"]]));
    let builder: csv::ReaderBuilder = Dialect { delimiter: b';', ..plain() }.into();
    let mut reader = builder.from_reader("a;b\n".as_bytes());
    assert_eq!(reader.records().next().unwrap().unwrap().len(), 2);
}
