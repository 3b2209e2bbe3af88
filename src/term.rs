//! Letting the user pick one of several matching entries at a terminal.
use vstd::prelude::*;

use crate::db::model::Secret;
use crate::text::{
    append_str, copy_str, decimal_string, parse_unsigned, parse_unsigned_text, trim, trim_spec,
};

verus! {

/// Whether an output stream is a terminal.
pub trait IsATTY {
    fn isatty(&self) -> bool;
}

/// A stream that prompts are written to.
pub trait PromptOutput {
    fn write_text(&mut self, text: &str);

    fn flush(&mut self);
}

/// A stream that answers are read from.
pub trait LineInput {
    /// Appends the next line, with its line break, to `buf`; appends nothing at the end of input.
    fn read_line_into(&mut self, buf: &mut String);
}

/// How an entry is shown in a list.
pub trait Describe {
    fn describe(&self) -> String;
}

impl Describe for u32 {
    fn describe(&self) -> String {
        decimal_string(*self as u64)
    }
}

impl Describe for i32 {
    fn describe(&self) -> String {
        if *self < 0 {
            let mut r = copy_str("-");
            let digits = decimal_string((0 - (*self as i64)) as u64);
            append_str(&mut r, digits.as_str());
            r
        } else {
            decimal_string(*self as u64)
        }
    }
}

impl<'s> Describe for &'s str {
    fn describe(&self) -> String {
        copy_str(*self)
    }
}

impl Describe for String {
    fn describe(&self) -> String {
        copy_str(self.as_str())
    }
}

impl Describe for Secret {
    fn describe(&self) -> String {
        self.label()
    }
}

/// How many times the user is asked before the selection is given up.
pub const MAX_PROMPTS: usize = 100;

/// What an answer to the prompt means, for a list of `n` entries.
#[derive(Clone, Copy, Debug, PartialEq, Eq)]
pub enum Selection {
    /// Not a number: the selection is abandoned.
    Unreadable,
    /// `0`: the user cancelled.
    Cancel,
    /// `k` in `1..=n`: entry `k - 1` was chosen.
    Choose(usize),
    /// A number above `n`: the user is asked again.
    Invalid,
}

/// The meaning of the answer text `t` (already trimmed) for `n` entries.
pub open spec fn selection_of(t: Seq<char>, n: nat) -> Selection {
    match parse_unsigned(t, usize::MAX as nat) {
        None => Selection::Unreadable,
        Some(ix) => if ix == 0 {
            Selection::Cancel
        } else if ix <= n {
            Selection::Choose((ix - 1) as usize)
        } else {
            Selection::Invalid
        },
    }
}

/// Reads an answer that has been trimmed.
pub fn selection_of_trimmed(t: &str, n: usize) -> (r: Selection)
    ensures
        r == selection_of(t@, n as nat),
{
    match parse_unsigned_text(t, usize::MAX as u64) {
        None => Selection::Unreadable,
        Some(ix) => if ix == 0 {
            Selection::Cancel
        } else if ix <= n as u64 {
            Selection::Choose((ix - 1) as usize)
        } else {
            Selection::Invalid
        },
    }
}

/// Reads everything answered so far: surrounding whitespace is ignored.
pub fn parse_selection(response: &str, n: usize) -> (r: Selection)
    ensures
        r == selection_of(trim_spec(response@), n as nat),
{
    selection_of_trimmed(trim(response), n)
}

/// What the answers read so far settle.
pub enum AnswerOutcome<'a, T> {
    /// The selection is over, with the chosen entry or none.
    Settled(Option<&'a T>),
    /// The answer was a number above the number of entries: ask again.
    AskAgain,
}

/// The outcome of the answers `response` for `items`: a lone number `k` in `1..=n` picks entry
/// `k - 1`, `0` or anything that is not a number settles on none, and a larger number asks
/// again.
pub fn answer_outcome<'a, T>(items: &'a Vec<T>, response: &str) -> (r: AnswerOutcome<'a, T>)
    ensures
        match selection_of(trim_spec(response@), items@.len()) {
            Selection::Choose(k) => k < items@.len() && r == AnswerOutcome::Settled(
                Some(&items@[k as int]),
            ),
            Selection::Invalid => r is AskAgain,
            _ => r == AnswerOutcome::<'a, T>::Settled(None),
        },
{
    match parse_selection(response, items.len()) {
        Selection::Unreadable => AnswerOutcome::Settled(None),
        Selection::Cancel => AnswerOutcome::Settled(None),
        Selection::Choose(k) => AnswerOutcome::Settled(Some(&items[k])),
        Selection::Invalid => AnswerOutcome::AskAgain,
    }
}

/// Picks one of `items`. None and one entry need no question; otherwise, on a terminal, the
/// entries are listed and the user answers with a number (`0` cancels). Answers accumulate, so
/// anything but a lone number ends the selection; a number that is too large is reported and
/// asked again, at most `MAX_PROMPTS` times.
pub fn pick_one<'a, T: Describe, In: LineInput, Out: PromptOutput + IsATTY>(
    inp: &mut In,
    out: &mut Out,
    msg: &str,
    items: &'a Vec<T>,
) -> (r: Option<&'a T>)
    ensures
        items@.len() == 0 ==> r is None,
        items@.len() == 1 ==> r == Some(&items@[0]),
        match r {
            Some(x) => exists|k: int| 0 <= k < items@.len() && x == &items@[k],
            None => true,
        },
        items@.len() >= 2 && r is Some ==> exists|answers: Seq<char>, k: int|
            selection_of(trim_spec(answers), items@.len()) == Selection::Choose(k as usize)
                && r == Some(&items@[k]),
{
    let num_alts = items.len();
    if num_alts == 0 {
        return None;
    }
    if num_alts == 1 {
        return Some(&items[0]);
    }
    if !out.isatty() {
        return None;
    }
    out.write_text(msg);
    out.write_text("\n");
    out.write_text("0:\t[cancel]\n");
    let mut i: usize = 0;
    while i < num_alts
        invariant
            num_alts == items@.len(),
            i <= num_alts,
        decreases num_alts - i,
    {
        let number = decimal_string(i as u64 + 1);
        out.write_text(number.as_str());
        out.write_text(":\t");
        let label = items[i].describe();
        out.write_text(label.as_str());
        out.write_text("\n");
        i = i + 1;
    }
    let mut response = String::new();
    let mut prompts: usize = 0;
    while prompts < MAX_PROMPTS
        invariant
            num_alts == items@.len(),
            num_alts > 1,
        decreases MAX_PROMPTS - prompts,
    {
        out.write_text("> ");
        out.flush();
        inp.read_line_into(&mut response);
        prompts = prompts + 1;
        let ghost answers = response@;
        match answer_outcome(items, response.as_str()) {
            AnswerOutcome::Settled(picked) => {
                proof {
                    if picked is Some {
                        let k = selection_of(trim_spec(answers), items@.len())->Choose_0;
                        assert(selection_of(trim_spec(answers), items@.len()) == Selection::Choose(
                            k,
                        ));
                        assert(picked == Some(&items@[k as int]));
                    }
                }
                return picked;
            },
            AnswerOutcome::AskAgain => {
                out.write_text("invalid selection\n");
            },
        }
    }
    None
}

} // verus!
