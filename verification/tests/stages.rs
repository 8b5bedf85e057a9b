use csv_sniffer::comment::{detect_comment, row_widths, split_kept};
use csv_sniffer::delimiter::{candidate_delimiters, detect_delimiter, DelimiterFit};
use csv_sniffer::fields::{count_fields, SplitRules};
use csv_sniffer::header::detect_header;
use csv_sniffer::metadata::{Comment, Escape, Quote};
use csv_sniffer::quoting::{detect_quoting, Quoting};
use csv_sniffer::shape::{analyze_shape, leading_run, ragged_from, Shape};
use csv_sniffer::tally::{count_occurrences, frequency_of, mode_of};
use csv_sniffer::SniffError;

fn lines(text: &[&str]) -> Vec<Vec<u8>> {
    text.iter().map(|l| l.as_bytes().to_vec()).collect()
}

fn rows(text: &[&[&str]]) -> Vec<Vec<Vec<u8>>> {
    text.iter().map(|r| lines(r)).collect()
}

fn no_delimiter() -> SniffError {
    SniffError::NoDelimiterFound { attempted: vec![b',', b'\t', b';', b'|', b':'] }
}

#[test]
fn counting_bytes_and_numbers() {
    assert_eq!(count_occurrences(b"a,b,,c", b','), 3);
    assert_eq!(count_occurrences(b"", b','), 0);
    assert_eq!(count_occurrences(b"abc", b','), 0);
    assert_eq!(frequency_of(&vec![3, 1, 3, 2, 3], 3), 3);
    assert_eq!(frequency_of(&vec![3, 1, 3, 2, 3], 4), 0);
    assert_eq!(frequency_of(&vec![], 4), 0);
}

#[test]
fn mode_is_the_most_frequent_and_the_greater_on_a_tie() {
    assert_eq!(mode_of(&vec![3, 1, 3, 2, 3]), (3, 3));
    assert_eq!(mode_of(&vec![7]), (7, 1));
    assert_eq!(mode_of(&vec![2, 5, 2, 5]), (5, 2));
    assert_eq!(mode_of(&vec![5, 2, 5, 2, 1]), (5, 2));
    assert_eq!(mode_of(&vec![1, 2, 3]), (3, 1));
    assert_eq!(mode_of(&vec![]), (0, 0));
}

#[test]
fn candidates_in_priority_order() {
    assert_eq!(candidate_delimiters(), vec![b',', b'\t', b';', b'|', b':']);
}

#[test]
fn every_candidate_is_detected_on_a_uniform_sample() {
    for d in [",", "\t", ";", "|", ":"] {
        let sample: Vec<Vec<u8>> = (0..12)
            .map(|i| format!("name{}{}{}{}x{}", i, d, i * 3, d, i).into_bytes())
            .collect();
        let fit = detect_delimiter(&sample).unwrap();
        assert_eq!(
            fit,
            DelimiterFit { delimiter: d.as_bytes()[0], num_fields: 3, support: 12, total: 12 }
        );
        assert!(fit.covers_all());
    }
}

#[test]
fn delimiter_needs_nine_lines_in_ten() {
    let mut sample = lines(&["a,b"; 9]);
    sample.push(b"junk".to_vec());
    let fit = detect_delimiter(&sample).unwrap();
    assert_eq!(fit, DelimiterFit { delimiter: b',', num_fields: 2, support: 9, total: 10 });
    assert!(!fit.covers_all());

    let mut sample = lines(&["a,b"; 8]);
    sample.push(b"junk".to_vec());
    sample.push(b"more junk".to_vec());
    assert_eq!(detect_delimiter(&sample), Err(no_delimiter()));

    let mut sample = lines(&["a,b"; 17]);
    sample.push(b"junk".to_vec());
    sample.push(b"more junk".to_vec());
    assert_eq!(detect_delimiter(&sample), Err(no_delimiter()));

    let mut sample = lines(&["a,b"; 18]);
    sample.push(b"junk".to_vec());
    sample.push(b"more junk".to_vec());
    assert_eq!(detect_delimiter(&sample).unwrap().support, 18);
}

#[test]
fn delimiter_that_splits_nothing_is_out() {
    assert_eq!(detect_delimiter(&lines(&["alpha", "beta", "gamma"])), Err(no_delimiter()));
    assert_eq!(detect_delimiter(&lines(&[])), Err(no_delimiter()));
    assert_eq!(detect_delimiter(&lines(&["", "", ""])), Err(no_delimiter()));
}

#[test]
fn stray_sentinel_is_no_delimiter() {
    let sample = lines(&[
        ":lorem ipsum dolor",
        "sit amet consectetur",
        "adipiscing elit sed",
        "do eiusmod tempor",
        "incididunt ut labore",
    ]);
    assert_eq!(detect_delimiter(&sample), Err(no_delimiter()));
    let sample = lines(&["one, two", "three", "four; five; six", "seven|eight", "nine", "ten"]);
    assert_eq!(detect_delimiter(&sample), Err(no_delimiter()));
}

#[test]
fn more_support_beats_more_fields() {
    let mut sample = lines(&["a;b;c;d,x"; 9]);
    sample.push(b"a,x".to_vec());
    let fit = detect_delimiter(&sample).unwrap();
    assert_eq!(fit, DelimiterFit { delimiter: b',', num_fields: 2, support: 10, total: 10 });
}

#[test]
fn more_fields_break_a_tie_in_support() {
    let sample = lines(&["a,b;c;d", "e,f;g;h", "i,j;k;l"]);
    let fit = detect_delimiter(&sample).unwrap();
    assert_eq!(fit, DelimiterFit { delimiter: b';', num_fields: 3, support: 3, total: 3 });
}

#[test]
fn priority_breaks_a_full_tie() {
    let sample = lines(&["a:b|c", "d:e|f", "g:h|i"]);
    assert_eq!(detect_delimiter(&sample).unwrap().delimiter, b'|');
    let sample = lines(&["a\tb,c", "d\te,f"]);
    assert_eq!(detect_delimiter(&sample).unwrap().delimiter, b',');
    let sample = lines(&["a;b\tc", "d;e\tf"]);
    assert_eq!(detect_delimiter(&sample).unwrap().delimiter, b'\t');
}

#[test]
fn double_quote_is_found() {
    let sample = lines(&["\"a\",\"b\"", "\"c, d\",\"e\"", "f,g"]);
    assert_eq!(
        detect_quoting(&sample, b','),
        Quoting { quote: Quote::Enabled(b'"'), doublequote_escapes: true, escape: Escape::Disabled }
    );
}

#[test]
fn single_quote_is_found() {
    let sample = lines(&["'a';'b'", "'c; d';'e'"]);
    assert_eq!(
        detect_quoting(&sample, b';'),
        Quoting { quote: Quote::Enabled(b'\''), doublequote_escapes: true, escape: Escape::Disabled }
    );
}

#[test]
fn double_quote_comes_before_single_quote() {
    let sample = lines(&["\"a\",'b'", "\"c\",'d'"]);
    assert_eq!(detect_quoting(&sample, b',').quote, Quote::Enabled(b'"'));
}

#[test]
fn no_quote_without_quoted_fields() {
    let sample = lines(&["a,b", "c,d \"e\" f", "it's,5\" nail"]);
    assert_eq!(
        detect_quoting(&sample, b','),
        Quoting { quote: Quote::Disabled, doublequote_escapes: true, escape: Escape::Disabled }
    );
}

#[test]
fn quote_needs_a_majority_of_closed_fields() {
    let sample = lines(&["\"a,b", "\"c,d", "\"e\",f"]);
    assert_eq!(detect_quoting(&sample, b',').quote, Quote::Disabled);
    let sample = lines(&["\"a,b", "\"c\",d"]);
    assert_eq!(detect_quoting(&sample, b',').quote, Quote::Disabled);
    let sample = lines(&["\"a,b", "\"c\",d", "\"e\",f"]);
    assert_eq!(detect_quoting(&sample, b',').quote, Quote::Enabled(b'"'));
}

#[test]
fn doubled_quotes_are_seen() {
    let sample = lines(&["\"say \"\"hi\"\"\",1", "\"x\",2"]);
    assert_eq!(
        detect_quoting(&sample, b','),
        Quoting { quote: Quote::Enabled(b'"'), doublequote_escapes: true, escape: Escape::Disabled }
    );
}

#[test]
fn escape_byte_is_seen() {
    let sample = lines(&["\"say \\\"hi\\\"\",1", "\"x\",2"]);
    assert_eq!(
        detect_quoting(&sample, b','),
        Quoting {
            quote: Quote::Enabled(b'"'),
            doublequote_escapes: false,
            escape: Escape::Enabled(b'\\'),
        }
    );
}

#[test]
fn doubling_wins_over_the_escape_byte() {
    let sample = lines(&["\"say \\\"hi\\\"\",1", "\"a \"\"b\"\"\",2"]);
    assert_eq!(
        detect_quoting(&sample, b','),
        Quoting { quote: Quote::Enabled(b'"'), doublequote_escapes: true, escape: Escape::Disabled }
    );
}

#[test]
fn comment_lines_among_the_records() {
    let sample = lines(&["a,b", "1,2", "# a remark", "3,4", "#another", "5,6"]);
    let widths = vec![2, 2, 1, 2, 1, 2];
    assert_eq!(detect_comment(&sample, &widths), Comment::Enabled(b'#'));
}

#[test]
fn hash_in_the_preamble_is_no_comment() {
    let sample = lines(&["# title", "a,b", "1,2", "3,4"]);
    assert_eq!(detect_comment(&sample, &vec![1, 2, 2, 2]), Comment::Disabled);
    let sample = lines(&["# title", "a,b", "1,2", "# remark", "3,4"]);
    assert_eq!(detect_comment(&sample, &vec![1, 2, 2, 1, 2]), Comment::Disabled);
}

#[test]
fn hash_on_a_record_is_no_comment() {
    let sample = lines(&["a,b", "#1,2", "3,4"]);
    assert_eq!(detect_comment(&sample, &vec![2, 2, 2]), Comment::Disabled);
    let sample = lines(&["a,b", "#1,2", "# remark", "3,4"]);
    assert_eq!(detect_comment(&sample, &vec![2, 2, 1, 2]), Comment::Disabled);
}

#[test]
fn no_comment_without_hash_lines() {
    let sample = lines(&["a,b", "1,2", "x", "3,4"]);
    assert_eq!(detect_comment(&sample, &vec![2, 2, 1, 2]), Comment::Disabled);
    assert_eq!(detect_comment(&lines(&[]), &vec![]), Comment::Disabled);
    assert_eq!(detect_comment(&lines(&["a,b", "#x"]), &vec![2]), Comment::Disabled);
}

#[test]
fn comment_lines_are_set_aside() {
    let rules = SplitRules {
        delimiter: b',',
        quote: Quote::Enabled(b'"'),
        doublequote_escapes: true,
        escape: Escape::Disabled,
    };
    let sample = lines(&["a,b", "# a remark, really", "\"1,5\",2"]);
    assert_eq!(count_fields(&rules, &sample), vec![2, 2, 2]);
    let kept = split_kept(&rules, &sample, &Comment::Enabled(b'#'));
    assert_eq!(kept, rows(&[&["a", "b"], &["1,5", "2"]]));
    assert_eq!(row_widths(&kept), vec![2, 2]);
    let all = split_kept(&rules, &sample, &Comment::Disabled);
    assert_eq!(all, rows(&[&["a", "b"], &["# a remark", " really"], &["1,5", "2"]]));
}

#[test]
fn shape_of_a_clean_table() {
    assert_eq!(
        analyze_shape(&vec![3, 3, 3, 3]),
        Shape { num_fields: 3, num_preamble_rows: 0, flexible: false }
    );
}

#[test]
fn shape_with_a_preamble() {
    assert_eq!(
        analyze_shape(&vec![1, 1, 2, 1, 3, 3, 3, 3, 3]),
        Shape { num_fields: 3, num_preamble_rows: 4, flexible: false }
    );
    assert_eq!(leading_run(&vec![1, 1, 2, 1, 3, 3], 3), 4);
    assert_eq!(leading_run(&vec![1, 1], 3), 2);
    assert_eq!(leading_run(&vec![], 3), 0);
}

#[test]
fn shape_is_flexible_when_a_later_row_differs() {
    assert_eq!(
        analyze_shape(&vec![1, 3, 3, 2, 3, 3]),
        Shape { num_fields: 3, num_preamble_rows: 1, flexible: true }
    );
    assert!(ragged_from(&vec![1, 3, 3, 2, 3], 3, 1));
    assert!(!ragged_from(&vec![1, 3, 3, 2, 3], 3, 4));
    assert!(!ragged_from(&vec![1, 3, 3], 3, 3));
    assert!(!ragged_from(&vec![1, 3, 3], 3, 7));
}

#[test]
fn shape_without_rows() {
    assert_eq!(analyze_shape(&vec![]), Shape { num_fields: 0, num_preamble_rows: 0, flexible: false });
}

#[test]
fn shape_takes_the_greater_width_on_a_tie() {
    assert_eq!(
        analyze_shape(&vec![2, 3, 2, 3]),
        Shape { num_fields: 3, num_preamble_rows: 1, flexible: true }
    );
}

#[test]
fn labels_above_numbers_are_a_header() {
    let table = rows(&[&["name", "count"], &["a", "1"], &["b", "2"]]);
    assert!(detect_header(&table, 0, 2));
}

#[test]
fn rows_of_one_kind_have_no_header() {
    let table = rows(&[&["x", "10"], &["a", "11"], &["b", "12"]]);
    assert!(!detect_header(&table, 0, 2));
    let table = rows(&[&["name", "city"], &["ann", "rome"], &["bob", "oslo"]]);
    assert!(!detect_header(&table, 0, 2));
}

#[test]
fn header_needs_two_rows() {
    let table = rows(&[&["name", "count"]]);
    assert!(!detect_header(&table, 0, 2));
    let table = rows(&[&["junk"], &["name", "count"]]);
    assert!(!detect_header(&table, 1, 2));
    assert!(!detect_header(&table, 2, 2));
    assert!(!detect_header(&table, 3, 2));
    let table = rows(&[&["name", "count"], &["a", "1"]]);
    assert!(detect_header(&table, 0, 2));
}

#[test]
fn header_is_judged_after_the_preamble_and_within_the_fields() {
    let table = rows(&[&["7"], &["name", "count"], &["a", "5"], &["b", "6"]]);
    assert!(detect_header(&table, 1, 2));
    assert!(!detect_header(&table, 2, 2));
    let table = rows(&[&["a", "count"], &["b", "1"], &["c", "2"]]);
    assert!(detect_header(&table, 0, 2));
    assert!(!detect_header(&table, 0, 1));
    assert!(!detect_header(&table, 0, 0));
}

#[test]
fn first_row_of_another_type_counts_as_a_header_either_way() {
    let table = rows(&[&["1"], &["2"], &["3"]]);
    assert!(detect_header(&table, 0, 1));
    let table = rows(&[&["2"], &["2.5"], &["3"]]);
    assert!(detect_header(&table, 0, 1));
    let table = rows(&[&["2"], &["7"], &["3"]]);
    assert!(!detect_header(&table, 0, 1));
}

#[test]
fn header_over_an_empty_column_is_not_told_apart() {
    let table = rows(&[&["name"], &[""], &[""]]);
    assert!(!detect_header(&table, 0, 1));
    let table = rows(&[&["5"], &[""], &["x"]]);
    assert!(detect_header(&table, 0, 1));
}
