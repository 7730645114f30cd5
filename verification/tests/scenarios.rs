use minus::{run, Event, ForbiddenSet, Outcome};
use std::io::{BufRead, BufReader, Error, ErrorKind, Read};

/// A source that yields its bytes and then fails every further read.
struct Faulty {
    data: Vec<u8>,
    at: usize,
}

impl Read for Faulty {
    fn read(&mut self, buf: &mut [u8]) -> std::io::Result<usize> {
        if self.at == self.data.len() {
            return Err(Error::new(ErrorKind::Other, "device gone"));
        }
        let n = buf.len().min(self.data.len() - self.at);
        buf[..n].copy_from_slice(&self.data[self.at..self.at + n]);
        self.at += n;
        Ok(n)
    }
}

fn forbid(items: &[&str]) -> ForbiddenSet {
    let args: Vec<String> = items.iter().map(|s| s.to_string()).collect();
    ForbiddenSet::from_args(&args)
}

fn events_of<R: BufRead>(reader: R) -> Vec<Event> {
    let mut events = Vec::new();
    for read in reader.lines() {
        match read {
            Ok(line) => events.push(Event::Line(line)),
            Err(err) => {
                events.push(Event::ReadError(err.to_string()));
                return events;
            }
        }
    }
    events.push(Event::EndOfInput);
    events
}

fn filter_text(args: &[&str], stdin: &str) -> Outcome {
    run(&forbid(args), &events_of(stdin.as_bytes()))
}

#[test]
fn one_forbidden_line_is_dropped() {
    let outcome = filter_text(&["bar"], "foo\nbar\nbaz\n");
    assert_eq!(outcome.stdout_text(), "foo\nbaz\n");
    assert_eq!(outcome.stderr_text(), "");
    assert_eq!(outcome.exit_code(), 0);
}

#[test]
fn no_arguments_copy_the_input() {
    let outcome = filter_text(&[], "x\ny\n");
    assert_eq!(outcome.stdout_text(), "x\ny\n");
    assert_eq!(outcome.stderr_text(), "");
    assert_eq!(outcome.exit_code(), 0);
}

#[test]
fn repeated_arguments_count_once() {
    let outcome = filter_text(&["a", "b", "a"], "a\nb\nc\nd\n");
    assert_eq!(outcome.stdout_text(), "c\nd\n");
    assert_eq!(outcome.stderr_text(), "");
    assert_eq!(outcome.exit_code(), 0);
}

#[test]
fn empty_input_gives_empty_output() {
    let outcome = filter_text(&["foo"], "");
    assert_eq!(outcome.output, Vec::<String>::new());
    assert_eq!(outcome.diagnostic, None);
    assert_eq!(outcome.stdout_text(), "");
    assert_eq!(outcome.stderr_text(), "");
    assert_eq!(outcome.exit_code(), 0);
}

#[test]
fn empty_input_gives_empty_output_whatever_the_arguments() {
    for args in [&[][..], &["foo"][..], &["", "a", "a"][..]] {
        let outcome = filter_text(args, "");
        assert_eq!(outcome.stdout_text(), "");
        assert_eq!(outcome.exit_code(), 0);
    }
}

#[test]
fn read_fault_after_a_filtered_line() {
    let source = BufReader::new(Faulty { data: b"foo\n".to_vec(), at: 0 });
    let outcome = run(&forbid(&["foo"]), &events_of(source));
    assert_eq!(outcome.stdout_text(), "");
    assert_eq!(outcome.stderr_text(), "read error: device gone\n");
    assert_eq!(outcome.diagnostic, Some("read error: device gone".to_string()));
    assert_eq!(outcome.exit_code(), 1);
}

#[test]
fn read_fault_keeps_what_was_written_before() {
    let source = BufReader::new(Faulty { data: b"one\nfoo\ntwo\n".to_vec(), at: 0 });
    let outcome = run(&forbid(&["foo"]), &events_of(source));
    assert_eq!(outcome.output, vec!["one".to_string(), "two".to_string()]);
    assert_eq!(outcome.stdout_text(), "one\ntwo\n");
    assert!(outcome.stderr_text().starts_with("read error: "));
    assert_eq!(outcome.exit_code(), 1);
}

#[test]
fn read_fault_on_the_first_read() {
    let source = BufReader::new(Faulty { data: Vec::new(), at: 0 });
    let outcome = run(&forbid(&[]), &events_of(source));
    assert_eq!(outcome.stdout_text(), "");
    assert_eq!(outcome.stderr_text(), "read error: device gone\n");
    assert_eq!(outcome.exit_code(), 1);
}

#[test]
fn undecodable_input_is_a_read_error() {
    let outcome = run(&forbid(&["b"]), &events_of(&b"a\nb\n\xff\xfe\nc\n"[..]));
    assert_eq!(outcome.output, vec!["a".to_string()]);
    assert!(outcome.diagnostic.unwrap().starts_with("read error: "));
}

#[test]
fn nothing_is_read_after_the_stop() {
    let events = vec![
        Event::Line("a".to_string()),
        Event::ReadError("first".to_string()),
        Event::Line("b".to_string()),
        Event::ReadError("second".to_string()),
    ];
    let outcome = run(&forbid(&[]), &events);
    assert_eq!(outcome.output, vec!["a".to_string()]);
    assert_eq!(outcome.diagnostic, Some("read error: first".to_string()));
    assert_eq!(outcome.exit_code(), 1);

    let events = vec![
        Event::Line("a".to_string()),
        Event::EndOfInput,
        Event::Line("b".to_string()),
        Event::ReadError("late".to_string()),
    ];
    let outcome = run(&forbid(&[]), &events);
    assert_eq!(outcome.output, vec!["a".to_string()]);
    assert_eq!(outcome.diagnostic, None);
    assert_eq!(outcome.exit_code(), 0);
}

#[test]
fn events_without_an_end_stop_at_their_end() {
    let events = vec![Event::Line("a".to_string()), Event::Line("b".to_string())];
    let outcome = run(&forbid(&["a"]), &events);
    assert_eq!(outcome.output, vec!["b".to_string()]);
    assert_eq!(outcome.diagnostic, None);
    assert_eq!(outcome.exit_code(), 0);
}

#[test]
fn last_line_without_newline_is_a_line() {
    let outcome = filter_text(&["bar"], "foo\nbar");
    assert_eq!(outcome.stdout_text(), "foo\n");
    let outcome = filter_text(&["bar"], "bar\nfoo");
    assert_eq!(outcome.stdout_text(), "foo\n");
}

#[test]
fn running_over_its_own_output_changes_nothing() {
    let first = filter_text(&["b", "d"], "a\nb\nc\nd\ne\n");
    assert_eq!(first.stdout_text(), "a\nc\ne\n");
    let second = filter_text(&["b", "d"], &first.stdout_text());
    assert_eq!(second, first);
}

#[test]
fn duplicate_arguments_run_alike() {
    let twice = filter_text(&["a", "a"], "a\nb\na\n");
    let once = filter_text(&["a"], "a\nb\na\n");
    assert_eq!(twice, once);
    assert_eq!(once.stdout_text(), "b\n");
}
