use grrs::{find_matches, StringSink, WriteError};

#[test]
fn find_a_match() {
    let mut result = StringSink::new();
    find_matches("lorem ipsum\ndolor sit amet", "lorem", &mut result).unwrap();
    assert_eq!(result.into_string().as_bytes(), b"lorem ipsum\n");
}

#[test]
fn matches_keep_their_order() {
    let mut result = StringSink::new();
    find_matches("a\nb\na\n", "a", &mut result).unwrap();
    assert_eq!(result.into_string(), "a\na\n");
}

#[test]
fn lines_come_out_unaltered() {
    let mut result = StringSink::new();
    find_matches("first match\nskip me\nsecond match", "match", &mut result).unwrap();
    assert_eq!(result.into_string(), "first match\nsecond match\n");
}

#[test]
fn empty_content_writes_nothing() {
    let mut result = StringSink::new();
    let outcome = find_matches("", "x", &mut result);
    assert!(outcome.is_ok());
    assert_eq!(result.into_string(), "");
}

#[test]
fn empty_pattern_writes_every_line() {
    let mut result = StringSink::new();
    find_matches("one\ntwo\nthree", "", &mut result).unwrap();
    assert_eq!(result.into_string(), "one\ntwo\nthree\n");
}

#[test]
fn absent_pattern_writes_nothing() {
    let mut result = StringSink::new();
    let outcome = find_matches("abc\ndef\nghi", "zz", &mut result);
    assert!(outcome.is_ok());
    assert_eq!(result.into_string(), "");
}

#[test]
fn pattern_longer_than_every_line_writes_nothing() {
    let mut result = StringSink::new();
    let outcome = find_matches("ab\ncd", "abcde", &mut result);
    assert!(outcome.is_ok());
    assert_eq!(result.into_string(), "");
}

#[test]
fn final_line_without_terminator_still_matches() {
    let mut result = StringSink::new();
    find_matches("one\ntwo", "two", &mut result).unwrap();
    assert_eq!(result.into_string(), "two\n");
}

#[test]
fn trailing_terminator_adds_no_empty_line() {
    let mut result = StringSink::new();
    find_matches("one\ntwo\n", "", &mut result).unwrap();
    assert_eq!(result.into_string(), "one\ntwo\n");
}

#[test]
fn carriage_return_stays_in_the_line() {
    let mut with_cr = StringSink::new();
    find_matches("ab\r\ncd", "ab", &mut with_cr).unwrap();
    assert_eq!(with_cr.into_string(), "ab\r\n");

    let mut after_cr = StringSink::new();
    find_matches("ab\r\ncd", "cd", &mut after_cr).unwrap();
    assert_eq!(after_cr.into_string(), "cd\n");
}

#[test]
fn multibyte_characters_match() {
    let mut result = StringSink::new();
    find_matches("h\u{e9}llo\nw\u{f6}rld", "\u{f6}", &mut result).unwrap();
    assert_eq!(result.into_string(), "w\u{f6}rld\n");
}

#[test]
fn empty_pattern_reproduces_terminated_content() {
    let mut result = StringSink::new();
    find_matches("one\ntwo\n\nthree\n", "", &mut result).unwrap();
    assert_eq!(result.into_string(), "one\ntwo\n\nthree\n");
}

#[test]
fn trailing_terminator_changes_no_output() {
    let mut without = StringSink::new();
    let mut with = StringSink::new();
    find_matches("one\ntwo", "o", &mut without).unwrap();
    find_matches("one\ntwo\n", "o", &mut with).unwrap();
    assert_eq!(without.into_string(), with.into_string());
}

#[test]
fn two_runs_produce_identical_output() {
    let mut first = StringSink::new();
    let mut second = StringSink::new();
    find_matches("lorem ipsum\ndolor sit amet\nlorem again", "lorem", &mut first).unwrap();
    find_matches("lorem ipsum\ndolor sit amet\nlorem again", "lorem", &mut second).unwrap();
    assert_eq!(first.into_string().into_bytes(), second.into_string().into_bytes());
}

struct FailingSink {
    written: Vec<String>,
    fail_at: usize,
    writes: usize,
}

impl grrs::Sink for FailingSink {
    fn write_line(&mut self, line: &str) -> Result<(), WriteError> {
        if self.writes == self.fail_at {
            return Err(WriteError { detail: String::from("sink closed") });
        }
        self.writes += 1;
        self.written.push(line.to_string());
        Ok(())
    }
}

#[test]
fn sink_failure_stops_the_search_at_once() {
    let mut sink = FailingSink { written: Vec::new(), fail_at: 1, writes: 0 };
    let err = find_matches("a\nb\na\na\n", "a", &mut sink).unwrap_err();
    assert_eq!(err.detail, "sink closed");
    assert_eq!(sink.written, vec![String::from("a")]);
}

#[test]
fn sink_failure_on_the_first_write_commits_nothing() {
    let mut sink = FailingSink { written: Vec::new(), fail_at: 0, writes: 0 };
    let err = find_matches("a\nb\n", "a", &mut sink).unwrap_err();
    assert_eq!(err.detail, "sink closed");
    assert!(sink.written.is_empty());
}
