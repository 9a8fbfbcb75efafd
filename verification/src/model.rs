//! The mathematical model of scanning: marker sets, the scanner's mode, and
//! the state reached after each character of the text.

use vstd::prelude::*;

verus! {

/// The three marker sets a scanner is configured with, as character
/// sequences in configuration order.
pub ghost struct Markers {
    /// Markers that start a comment running to the end of the line.
    pub single_line: Seq<Seq<char>>,
    /// `(start, end)` pairs that delimit a block comment.
    pub multi_line: Seq<(Seq<char>, Seq<char>)>,
    /// Markers that both open and close a quoted literal.
    pub quotes: Seq<Seq<char>>,
}

/// What the scanner is inside of.
pub ghost enum Mode {
    /// Outside any comment or literal: text is copied and every start marker
    /// is looked for.
    Normal,
    /// Inside a quoted literal that the given marker closes.
    Quote(Seq<char>),
    /// Inside a comment that the next line terminator closes.
    LineComment,
    /// Inside a comment that the given marker closes.
    BlockComment(Seq<char>),
}

/// Mode and output so far.
pub ghost struct State {
    pub mode: Mode,
    pub out: Seq<char>,
}

impl Markers {
    /// Every marker has at least one character. A scan is defined without
    /// this too: an empty marker is found at the end of whatever was read.
    pub open spec fn all_nonempty(self) -> bool {
        &&& forall|i: int|
            0 <= i < self.single_line.len() ==> (#[trigger] self.single_line[i]).len() > 0
        &&& forall|i: int|
            0 <= i < self.multi_line.len() ==> (#[trigger] self.multi_line[i]).0.len() > 0
                && self.multi_line[i].1.len() > 0
        &&& forall|i: int| 0 <= i < self.quotes.len() ==> (#[trigger] self.quotes[i]).len() > 0
    }

    /// The start markers of the block comments, in configuration order.
    pub open spec fn block_starts(self) -> Seq<Seq<char>> {
        starts(self.multi_line)
    }

    /// The width of the lookbehind window: the length of the longest marker
    /// of any kind, block comment ends included; 0 where there is none.
    pub open spec fn width(self) -> nat {
        max_nat(
            max_nat(longest(self.single_line), longest_of_pairs(self.multi_line)),
            longest(self.quotes),
        )
    }
}

/// The start markers of the pairs `ms`, in order.
pub open spec fn starts(ms: Seq<(Seq<char>, Seq<char>)>) -> Seq<Seq<char>> {
    Seq::new(ms.len(), |i: int| ms[i].0)
}

/// The larger of two numbers.
pub open spec fn max_nat(a: nat, b: nat) -> nat {
    if a >= b {
        a
    } else {
        b
    }
}

/// The length of the longest of `ms`, 0 for none.
pub open spec fn longest(ms: Seq<Seq<char>>) -> nat
    decreases ms.len(),
{
    if ms.len() == 0 {
        0
    } else {
        max_nat(longest(ms.drop_last()), ms.last().len())
    }
}

/// The length of the longest marker in the pairs `ms`, 0 for none.
pub open spec fn longest_of_pairs(ms: Seq<(Seq<char>, Seq<char>)>) -> nat
    decreases ms.len(),
{
    if ms.len() == 0 {
        0
    } else {
        max_nat(longest_of_pairs(ms.drop_last()), max_nat(ms.last().0.len(), ms.last().1.len()))
    }
}

/// No marker is longer than the longest.
pub proof fn lemma_longest_bounds(ms: Seq<Seq<char>>, i: int)
    requires
        0 <= i < ms.len(),
    ensures
        ms[i].len() <= longest(ms),
    decreases ms.len(),
{
    if i < ms.len() - 1 {
        lemma_longest_bounds(ms.drop_last(), i);
    }
}

/// No start or end marker of a pair is longer than the longest.
pub proof fn lemma_longest_of_pairs_bounds(ms: Seq<(Seq<char>, Seq<char>)>, i: int)
    requires
        0 <= i < ms.len(),
    ensures
        ms[i].0.len() <= longest_of_pairs(ms),
        ms[i].1.len() <= longest_of_pairs(ms),
    decreases ms.len(),
{
    if i < ms.len() - 1 {
        lemma_longest_of_pairs_bounds(ms.drop_last(), i);
    }
}

/// `seen` ends with the whole of `marker`.
pub open spec fn ends_with(seen: Seq<char>, marker: Seq<char>) -> bool {
    marker.len() <= seen.len() && seen.subrange(seen.len() - marker.len(), seen.len() as int)
        == marker
}

/// The index of the first of `ms`, from index `from` on, that `seen` ends
/// with.
pub open spec fn first_match_from(ms: Seq<Seq<char>>, seen: Seq<char>, from: int) -> Option<int>
    decreases ms.len() - from,
{
    if from < 0 || from >= ms.len() {
        None
    } else if ends_with(seen, ms[from]) {
        Some(from)
    } else {
        first_match_from(ms, seen, from + 1)
    }
}

/// What `first_match_from` finds is the least index from `from` on whose
/// marker `seen` ends with; it finds none exactly when there is none.
pub proof fn lemma_first_match_from(ms: Seq<Seq<char>>, seen: Seq<char>, from: int)
    requires
        0 <= from,
    ensures
        match first_match_from(ms, seen, from) {
            Some(i) => {
                &&& from <= i < ms.len()
                &&& ends_with(seen, ms[i])
                &&& forall|j: int| from <= j < i ==> !ends_with(seen, #[trigger] ms[j])
            },
            None => forall|j: int| from <= j < ms.len() ==> !ends_with(seen, #[trigger] ms[j]),
        },
    decreases ms.len() - from,
{
    if from < ms.len() && !ends_with(seen, ms[from]) {
        lemma_first_match_from(ms, seen, from + 1);
    }
}

/// The index of the first of `ms`, in configuration order, that `seen` ends
/// with.
pub open spec fn first_match(ms: Seq<Seq<char>>, seen: Seq<char>) -> Option<int> {
    first_match_from(ms, seen, 0)
}

/// `out` without its last `n` characters, or empty where it has fewer.
pub open spec fn without_last(out: Seq<char>, n: nat) -> Seq<char> {
    if n <= out.len() {
        out.take(out.len() - n)
    } else {
        Seq::empty()
    }
}

/// `c` is a line feed or a carriage return.
pub open spec fn is_line_end(c: char) -> bool {
    c == '\n' || c == '\r'
}

/// The state before any character.
pub open spec fn start() -> State {
    State { mode: Mode::Normal, out: Seq::empty() }
}

/// The state after one more character, where `seen` is the text up to and
/// including that character and `st` the state before it.
///
/// In normal mode the character is copied, and then the start markers are
/// tried: line comments first, then block comments, then quotes; within a
/// kind the first in configuration order that `seen` ends with. A comment's
/// start marker is taken back out of the output by its length; a quote's
/// stays. In a quote the character is copied, in a comment dropped, and the
/// mode returns to normal once `seen` ends with the recorded end marker or,
/// in a line comment, the character is a line terminator.
pub open spec fn step(cfg: Markers, st: State, seen: Seq<char>) -> State
    recommends
        seen.len() > 0,
{
    let c = seen.last();
    match st.mode {
        Mode::Normal => {
            let out = st.out.push(c);
            match first_match(cfg.single_line, seen) {
                Some(i) => State {
                    mode: Mode::LineComment,
                    out: without_last(out, cfg.single_line[i].len()),
                },
                None => match first_match(cfg.block_starts(), seen) {
                    Some(i) => State {
                        mode: Mode::BlockComment(cfg.multi_line[i].1),
                        out: without_last(out, cfg.multi_line[i].0.len()),
                    },
                    None => match first_match(cfg.quotes, seen) {
                        Some(i) => State { mode: Mode::Quote(cfg.quotes[i]), out },
                        None => State { mode: Mode::Normal, out },
                    },
                },
            }
        },
        Mode::Quote(end) => State {
            mode: if ends_with(seen, end) {
                Mode::Normal
            } else {
                Mode::Quote(end)
            },
            out: st.out.push(c),
        },
        Mode::LineComment => State {
            mode: if is_line_end(c) {
                Mode::Normal
            } else {
                Mode::LineComment
            },
            out: st.out,
        },
        Mode::BlockComment(end) => State {
            mode: if ends_with(seen, end) {
                Mode::Normal
            } else {
                Mode::BlockComment(end)
            },
            out: st.out,
        },
    }
}

/// The state after the first `n` characters of `text`.
pub open spec fn state_after(cfg: Markers, text: Seq<char>, n: nat) -> State
    decreases n,
{
    if n == 0 {
        start()
    } else {
        step(cfg, state_after(cfg, text, (n - 1) as nat), text.take(n as int))
    }
}

/// What scanning `text` under `cfg` gives: the output after all of it.
pub open spec fn stripped(cfg: Markers, text: Seq<char>) -> Seq<char> {
    state_after(cfg, text, text.len()).out
}

} // verus!
