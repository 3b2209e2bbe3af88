use std::cell::RefCell;
use std::collections::VecDeque;
use std::rc::Rc;

use totpm::term::{
    answer_outcome, parse_selection, pick_one, AnswerOutcome, IsATTY, LineInput, PromptOutput,
    Selection,
};

enum TermAction {
    Write(VecDeque<u8>),
    Read,
    Expect(String),
}

struct MockTerminal {
    actions: VecDeque<TermAction>,
    stdin_buffer: VecDeque<u8>,
    stdout_buffer: Vec<u8>,
    output: Vec<String>,
}

struct MockStdin<'a> {
    term: Rc<RefCell<&'a mut MockTerminal>>,
}

struct MockStdout<'a> {
    term: Rc<RefCell<&'a mut MockTerminal>>,
}

impl MockTerminal {
    fn new() -> Self {
        MockTerminal {
            actions: VecDeque::new(),
            stdin_buffer: VecDeque::new(),
            stdout_buffer: Vec::new(),
            output: Vec::new(),
        }
    }

    fn stdin_stdout(&mut self) -> (MockStdin<'_>, MockStdout<'_>) {
        let inp = Rc::new(RefCell::new(self));
        let out = inp.clone();
        (MockStdin { term: inp }, MockStdout { term: out })
    }

    fn write_stdin(mut self, s: &str) -> Self {
        let mut line = VecDeque::from(s.as_bytes().to_vec());
        line.push_back(13);
        self.actions.push_back(TermAction::Write(line));
        self
    }

    fn wait_stdout(mut self) -> Self {
        self.actions.push_back(TermAction::Read);
        self
    }

    fn expect_stdout(mut self, s: &str) -> Self {
        self.actions.push_back(TermAction::Expect(s.to_owned()));
        self
    }

    fn check_front(&mut self) {
        match self.actions.front() {
            Some(TermAction::Read) => {
                self.actions.pop_front();
            }
            Some(TermAction::Expect(s)) => {
                assert_eq!(self.output.last().unwrap(), s);
                self.actions.pop_front();
            }
            _ => {}
        }
    }

    fn write(&mut self, buf: &[u8]) {
        for c in buf {
            self.stdout_buffer.push(*c);
            if *c == 10u8 {
                self.output
                    .push(std::str::from_utf8(self.stdout_buffer.as_slice()).unwrap().to_owned());
                self.stdout_buffer.clear();
                self.check_front();
            }
        }
    }

    fn flush(&mut self) {
        if !self.stdout_buffer.is_empty() {
            self.output
                .push(std::str::from_utf8(self.stdout_buffer.as_slice()).unwrap().to_owned());
            self.stdout_buffer.clear();
        }
        self.check_front();
    }

    fn fill(&mut self) {
        if self.stdin_buffer.is_empty() {
            if let Some(TermAction::Write(bytes)) = self.actions.front_mut() {
                let bytes = std::mem::take(bytes);
                self.stdin_buffer.extend(bytes);
                self.actions.pop_front();
            }
        }
    }

    fn read_line(&mut self, buf: &mut String) {
        let mut line = Vec::new();
        loop {
            self.fill();
            match self.stdin_buffer.pop_front() {
                Some(b) => {
                    line.push(b);
                    if b == 10u8 {
                        break;
                    }
                }
                None => break,
            }
        }
        buf.push_str(std::str::from_utf8(&line).unwrap());
    }
}

impl<'a> LineInput for MockStdin<'a> {
    fn read_line_into(&mut self, buf: &mut String) {
        self.term.borrow_mut().read_line(buf)
    }
}

impl<'a> PromptOutput for MockStdout<'a> {
    fn write_text(&mut self, text: &str) {
        self.term.borrow_mut().write(text.as_bytes())
    }

    fn flush(&mut self) {
        self.term.borrow_mut().flush()
    }
}

impl<'a> IsATTY for MockStdout<'a> {
    fn isatty(&self) -> bool {
        true
    }
}

struct NoInput;

impl LineInput for NoInput {
    fn read_line_into(&mut self, _buf: &mut String) {}
}

struct Pipe(Vec<u8>);

impl PromptOutput for Pipe {
    fn write_text(&mut self, text: &str) {
        self.0.extend_from_slice(text.as_bytes())
    }

    fn flush(&mut self) {}
}

impl IsATTY for Pipe {
    fn isatty(&self) -> bool {
        false
    }
}

#[test]
fn pick_one_returns_none_on_non_terminal_input() {
    assert_eq!(pick_one(&mut NoInput, &mut Pipe(Vec::new()), "hello", &vec![1, 2, 3]), None,)
}

#[test]
fn pick_one_returns_none_on_empty_input() {
    let mut term = MockTerminal::new();
    let (mut inp, mut out) = term.stdin_stdout();
    assert_eq!(pick_one(&mut inp, &mut out, "hello", &vec![]), None as Option<&u32>,)
}

#[test]
fn pick_one_returns_none_on_cancel() {
    let mut term = MockTerminal::new().write_stdin("0");
    let (mut inp, mut out) = term.stdin_stdout();
    assert_eq!(pick_one(&mut inp, &mut out, "hello", &vec![1, 2, 3]), None as Option<&u32>,)
}

#[test]
fn pick_one_returns_only_alternative_without_prompt() {
    let mut term = MockTerminal::new();
    let (mut inp, mut out) = term.stdin_stdout();
    let mut non_terminal_stdout = Pipe(Vec::new());
    assert_eq!(pick_one(&mut inp, &mut out, "hello", &vec!["x"]), Some(&"x"),);
    assert_eq!(pick_one(&mut inp, &mut non_terminal_stdout, "hello", &vec!["x"]), Some(&"x"),);
}

#[test]
fn pick_one_warns_and_returns_nothing_on_invalid_selection() {
    let mut term = MockTerminal::new()
        .expect_stdout("hello\n")
        .expect_stdout("0:\t[cancel]\n")
        .expect_stdout("1:\tfoo\n")
        .expect_stdout("2:\tbar\n")
        .expect_stdout("> ")
        .write_stdin("3")
        .expect_stdout("invalid selection\n")
        .expect_stdout("> ")
        .write_stdin("1");
    let (mut inp, mut out) = term.stdin_stdout();
    assert_eq!(pick_one(&mut inp, &mut out, "hello", &vec!["foo", "bar"]), None as Option<&&str>,);
}

#[test]
fn pick_one_outputs_prompt() {
    let mut term = MockTerminal::new()
        .expect_stdout("hello\n")
        .expect_stdout("0:\t[cancel]\n")
        .expect_stdout("1:\tfoo\n")
        .expect_stdout("2:\tbar\n")
        .expect_stdout("3:\tbaz\n")
        .expect_stdout("> ")
        .write_stdin("0");
    let (mut inp, mut out) = term.stdin_stdout();
    assert_eq!(
        pick_one(&mut inp, &mut out, "hello", &vec!["foo", "bar", "baz"]),
        None as Option<&&str>,
    );
}

#[test]
fn pick_one_returns_chosen_input() {
    let items = vec![1, 2, 3, 4, 5];
    let mut term = MockTerminal::new()
        .wait_stdout()
        .write_stdin("1") // First item
        .wait_stdout()
        .write_stdin("5") // Last item
        .wait_stdout()
        .write_stdin("2"); // Some other item
    let (mut inp, mut out) = term.stdin_stdout();
    assert_eq!(pick_one(&mut inp, &mut out, "hello", &items), Some(&1u32),);
    assert_eq!(pick_one(&mut inp, &mut out, "hello", &items), Some(&5u32),);
    assert_eq!(pick_one(&mut inp, &mut out, "hello", &items), Some(&2u32),);
}

#[test]
fn pick_one_lists_negative_numbers_with_sign() {
    let mut term = MockTerminal::new()
        .expect_stdout("pick\n")
        .expect_stdout("0:\t[cancel]\n")
        .expect_stdout("1:\t-7\n")
        .expect_stdout("2:\t12\n")
        .expect_stdout("> ")
        .write_stdin("2");
    let (mut inp, mut out) = term.stdin_stdout();
    assert_eq!(pick_one(&mut inp, &mut out, "pick", &vec![-7i32, 12]), Some(&12));
}

#[test]
fn pick_one_gives_up_at_end_of_input_after_invalid_answers() {
    let mut term = MockTerminal::new().write_stdin("9");
    let (mut inp, mut out) = term.stdin_stdout();
    assert_eq!(pick_one(&mut inp, &mut out, "hello", &vec![1u32, 2]), None);
}

#[test]
fn selections_are_read_from_trimmed_numbers() {
    assert_eq!(parse_selection(" 2 \r\n", 3), Selection::Choose(1));
    assert_eq!(parse_selection("+3", 3), Selection::Choose(2));
    assert_eq!(parse_selection("0", 3), Selection::Cancel);
    assert_eq!(parse_selection("4", 3), Selection::Invalid);
    assert_eq!(parse_selection("3\r1\r", 3), Selection::Unreadable);
    assert_eq!(parse_selection("", 3), Selection::Unreadable);
    assert_eq!(parse_selection("-1", 3), Selection::Unreadable);
    assert_eq!(parse_selection("99999999999999999999999", 3), Selection::Unreadable);
}

#[test]
fn answers_settle_or_ask_again() {
    let items = vec![10u32, 20, 30];
    assert!(matches!(answer_outcome(&items, "2\r"), AnswerOutcome::Settled(Some(&20))));
    assert!(matches!(answer_outcome(&items, "0\n"), AnswerOutcome::Settled(None)));
    assert!(matches!(answer_outcome(&items, "x"), AnswerOutcome::Settled(None)));
    assert!(matches!(answer_outcome(&items, "4"), AnswerOutcome::AskAgain));
    assert!(matches!(answer_outcome(&items, "4\r1\r"), AnswerOutcome::Settled(None)));
}

#[test]
fn answers_ignore_unicode_whitespace() {
    assert_eq!(parse_selection("\u{a0}2\u{3000}", 3), Selection::Choose(1));
    assert_eq!(parse_selection("\u{2028}1\u{85}", 3), Selection::Choose(0));
}
