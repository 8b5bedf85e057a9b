use csv_sniffer::metadata::Terminator;
use csv_sniffer::sample::{take_sample, Sample};
use csv_sniffer::snip::preamble_offset;
use csv_sniffer::SniffError;

fn lines_of(sample: &Sample) -> Vec<String> {
    sample.lines.iter().map(|l| String::from_utf8(l.clone()).unwrap()).collect()
}

#[test]
fn lines_end_at_line_feeds() {
    let sample = take_sample(b"a,b\nc,d\ne,f\n", 10, 100).unwrap();
    assert_eq!(lines_of(&sample), vec!["a,b", "c,d", "e,f"]);
    assert_eq!(sample.terminator, Terminator::Any(b'\n'));
}

#[test]
fn last_line_needs_no_line_feed() {
    let sample = take_sample(b"a,b\nc,d", 10, 100).unwrap();
    assert_eq!(lines_of(&sample), vec!["a,b", "c,d"]);
    assert_eq!(sample.terminator, Terminator::Any(b'\n'));
}

#[test]
fn blank_lines_are_lines() {
    let sample = take_sample(b"a\n\nb\n", 10, 100).unwrap();
    assert_eq!(lines_of(&sample), vec!["a", "", "b"]);
    let sample = take_sample(b"\n", 10, 100).unwrap();
    assert_eq!(lines_of(&sample), vec![""]);
}

#[test]
fn carriage_returns_are_taken_off_when_every_line_has_one() {
    let sample = take_sample(b"a,b\r\nc,d\r\ne,f", 10, 100).unwrap();
    assert_eq!(lines_of(&sample), vec!["a,b", "c,d", "e,f"]);
    assert_eq!(sample.terminator, Terminator::CRLF);
    let sample = take_sample(b"a,b\r\n\r\n", 10, 100).unwrap();
    assert_eq!(lines_of(&sample), vec!["a,b", ""]);
    assert_eq!(sample.terminator, Terminator::CRLF);
}

#[test]
fn mixed_line_ends_keep_their_carriage_returns() {
    let sample = take_sample(b"a,b\r\nc,d\ne,f\r\n", 10, 100).unwrap();
    assert_eq!(lines_of(&sample), vec!["a,b\r", "c,d", "e,f\r"]);
    assert_eq!(sample.terminator, Terminator::Any(b'\n'));
}

#[test]
fn one_line_without_end_tells_nothing() {
    let sample = take_sample(b"a,b", 10, 100).unwrap();
    assert_eq!(lines_of(&sample), vec!["a,b"]);
    assert_eq!(sample.terminator, Terminator::CRLF);
    let sample = take_sample(b"a,b\r", 10, 100).unwrap();
    assert_eq!(lines_of(&sample), vec!["a,b\r"]);
    assert_eq!(sample.terminator, Terminator::CRLF);
}

#[test]
fn line_limit_stops_the_sample() {
    let sample = take_sample(b"1\n2\n3\n4\n5\n", 3, 100).unwrap();
    assert_eq!(lines_of(&sample), vec!["1", "2", "3"]);
    let sample = take_sample(b"1\r\n2\r\n3\n4\n5\n", 2, 100).unwrap();
    assert_eq!(lines_of(&sample), vec!["1", "2"]);
    assert_eq!(sample.terminator, Terminator::CRLF);
    let sample = take_sample(b"1\n2\n3", 3, 100).unwrap();
    assert_eq!(lines_of(&sample), vec!["1", "2", "3"]);
}

#[test]
fn byte_limit_stops_the_sample_and_drops_the_cut_line() {
    let sample = take_sample(b"ab\ncd\nefgh\n", 10, 8).unwrap();
    assert_eq!(lines_of(&sample), vec!["ab", "cd"]);
    let sample = take_sample(b"ab\ncd\nefgh\n", 10, 6).unwrap();
    assert_eq!(lines_of(&sample), vec!["ab", "cd"]);
    let sample = take_sample(b"ab\ncd\nefgh\n", 10, 5).unwrap();
    assert_eq!(lines_of(&sample), vec!["ab"]);
    let sample = take_sample(b"ab\ncd\nefgh", 10, 10).unwrap();
    assert_eq!(lines_of(&sample), vec!["ab", "cd", "efgh"]);
    let sample = take_sample(b"ab\ncd\nefgh", 10, 9).unwrap();
    assert_eq!(lines_of(&sample), vec!["ab", "cd"]);
}

#[test]
fn nothing_to_sample_is_empty_input() {
    assert_eq!(take_sample(b"", 10, 100).err(), Some(SniffError::EmptyInput));
    assert_eq!(take_sample(b"a,b\n", 0, 100).err(), Some(SniffError::EmptyInput));
    assert_eq!(take_sample(b"a,b\n", 10, 0).err(), Some(SniffError::EmptyInput));
    assert_eq!(take_sample(b"a,b,c,d\n", 10, 3).err(), Some(SniffError::EmptyInput));
}

#[test]
fn bytes_that_are_no_text_are_a_decode_error() {
    assert_eq!(take_sample(b"a,b\n\xff\xfe,c\n", 10, 100).err(), Some(SniffError::DecodeError));
    assert_eq!(take_sample(b"\xc3\n", 10, 100).err(), Some(SniffError::DecodeError));
    let sample = take_sample("caf\u{e9},na\u{ef}ve\n".as_bytes(), 10, 100).unwrap();
    assert_eq!(lines_of(&sample), vec!["caf\u{e9},na\u{ef}ve"]);
}

#[test]
fn only_sampled_lines_are_decoded() {
    let sample = take_sample(b"a,b\nc,d\n\xff\n", 2, 100).unwrap();
    assert_eq!(lines_of(&sample), vec!["a,b", "c,d"]);
    let sample = take_sample("a,b\nc,\u{e9}\n".as_bytes(), 10, 7).unwrap();
    assert_eq!(lines_of(&sample), vec!["a,b"]);
}

#[test]
fn preamble_ends_after_its_last_line_feed() {
    let data = b"one\ntwo\r\nthree\nfour";
    assert_eq!(preamble_offset(data, 0), 0);
    assert_eq!(preamble_offset(data, 1), 4);
    assert_eq!(preamble_offset(data, 2), 9);
    assert_eq!(preamble_offset(data, 3), 15);
    assert_eq!(preamble_offset(data, 4), 19);
    assert_eq!(preamble_offset(data, 9), 19);
    assert_eq!(preamble_offset(b"", 2), 0);
    assert_eq!(preamble_offset(b"\n\n\n", 2), 2);
}
