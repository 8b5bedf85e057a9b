use csv_sniffer::metadata::{Comment, Dialect, Escape, Header, Metadata, Quote, Terminator};
use csv_sniffer::Type;

#[test]
fn dialect_report_lists_every_finding() {
    let dialect = Dialect {
        delimiter: b',',
        header: Header { has_header_row: true, num_preamble_rows: 4 },
        terminator: Terminator::CRLF,
        quote: Quote::Enabled(b'"'),
        doublequote_escapes: true,
        escape: Escape::Disabled,
        comment: Comment::Disabled,
        flexible: false,
    };
    assert_eq!(
        dialect.report(),
        "Dialect:\n\
         \tDelimiter: ,\n\
         \tHas header row?: true\n\
         \tNumber of preamble rows: 4\n\
         \tQuote character: \"\n\
         \tDouble-quote escapes?: true\n\
         \tEscape character: none\n\
         \tComment character: none\n\
         \tFlexible: false\n"
    );
}

#[test]
fn dialect_report_names_the_markers() {
    let dialect = Dialect {
        delimiter: b'\t',
        header: Header { has_header_row: false, num_preamble_rows: 1203 },
        terminator: Terminator::Any(b'\n'),
        quote: Quote::Disabled,
        doublequote_escapes: false,
        escape: Escape::Enabled(b'\\'),
        comment: Comment::Enabled(b'#'),
        flexible: true,
    };
    assert_eq!(
        dialect.report(),
        "Dialect:\n\
         \tDelimiter: \t\n\
         \tHas header row?: false\n\
         \tNumber of preamble rows: 1203\n\
         \tQuote character: none\n\
         \tDouble-quote escapes?: false\n\
         \tEscape character: \\\n\
         \tComment character: #\n\
         \tFlexible: true\n"
    );
}

#[test]
fn marker_above_ascii_is_the_character_with_its_code() {
    let dialect = Dialect {
        delimiter: 0xa7,
        header: Header { has_header_row: false, num_preamble_rows: 0 },
        terminator: Terminator::CRLF,
        quote: Quote::Disabled,
        doublequote_escapes: true,
        escape: Escape::Disabled,
        comment: Comment::Disabled,
        flexible: false,
    };
    assert!(dialect.report().starts_with("Dialect:\n\tDelimiter: \u{a7}\n"));
}

#[test]
fn metadata_report_numbers_the_columns_from_zero() {
    let metadata = Metadata {
        dialect: Dialect {
            delimiter: b';',
            header: Header { has_header_row: true, num_preamble_rows: 0 },
            terminator: Terminator::CRLF,
            quote: Quote::Enabled(b'\''),
            doublequote_escapes: true,
            escape: Escape::Disabled,
            comment: Comment::Disabled,
            flexible: false,
        },
        num_fields: 12,
        types: vec![
            Type::Text,
            Type::Integer,
            Type::Float,
            Type::Boolean,
            Type::Text,
            Type::Text,
            Type::Text,
            Type::Text,
            Type::Text,
            Type::Text,
            Type::Integer,
            Type::Float,
        ],
    };
    assert_eq!(
        metadata.report(),
        "Metadata\n\
         ========\n\
         Dialect:\n\
         \tDelimiter: ;\n\
         \tHas header row?: true\n\
         \tNumber of preamble rows: 0\n\
         \tQuote character: '\n\
         \tDouble-quote escapes?: true\n\
         \tEscape character: none\n\
         \tComment character: none\n\
         \tFlexible: false\n\
         \n\
         Number of fields: 12\n\
         Types:\n\
         \t0: Text\n\
         \t1: Integer\n\
         \t2: Float\n\
         \t3: Boolean\n\
         \t4: Text\n\
         \t5: Text\n\
         \t6: Text\n\
         \t7: Text\n\
         \t8: Text\n\
         \t9: Text\n\
         \t10: Integer\n\
         \t11: Float\n"
    );
}

#[test]
fn metadata_report_without_columns() {
    let metadata = Metadata {
        dialect: Dialect {
            delimiter: b',',
            header: Header { has_header_row: false, num_preamble_rows: 0 },
            terminator: Terminator::CRLF,
            quote: Quote::Disabled,
            doublequote_escapes: true,
            escape: Escape::Disabled,
            comment: Comment::Disabled,
            flexible: false,
        },
        num_fields: 0,
        types: vec![],
    };
    assert!(metadata.report().ends_with("\nNumber of fields: 0\nTypes:\n"));
}

#[test]
fn dialects_are_equal_when_every_finding_is() {
    let a = Dialect {
        delimiter: b',',
        header: Header { has_header_row: true, num_preamble_rows: 4 },
        terminator: Terminator::Any(b'\n'),
        quote: Quote::Enabled(b'"'),
        doublequote_escapes: true,
        escape: Escape::Disabled,
        comment: Comment::Disabled,
        flexible: false,
    };
    assert_eq!(a, a.clone());
    assert_ne!(a, Dialect { terminator: Terminator::CRLF, ..a });
    assert_ne!(a, Dialect { terminator: Terminator::Any(b'\r'), ..a });
    assert_ne!(a, Dialect { delimiter: b';', ..a });
    assert_ne!(a, Dialect { header: Header { has_header_row: true, num_preamble_rows: 3 }, ..a });
    assert_ne!(a, Dialect { quote: Quote::Disabled, ..a });
    assert_ne!(a, Dialect { flexible: true, ..a });
    assert_eq!(
        Dialect { terminator: Terminator::CRLF, ..a },
        Dialect { terminator: Terminator::CRLF, ..a }
    );
}
