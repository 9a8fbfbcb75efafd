//! The executable scanner: a configuration of markers and the single pass
//! over a text that strips its comments.

use crate::model::{
    ends_with, first_match, first_match_from, lemma_longest_bounds, lemma_longest_of_pairs_bounds,
    longest, longest_of_pairs, starts, state_after, stripped, without_last, Markers, Mode,
};
use std::collections::VecDeque;
use vstd::prelude::*;
use vstd::std_specs::iter::IteratorSpec;

verus! {

/// The character sequences of a list of markers.
pub open spec fn texts(ms: Seq<&str>) -> Seq<Seq<char>> {
    Seq::new(ms.len(), |i: int| ms[i]@)
}

/// The character sequences of a list of marker pairs.
pub open spec fn pair_texts(ms: Seq<(&str, &str)>) -> Seq<(Seq<char>, Seq<char>)> {
    Seq::new(ms.len(), |i: int| (ms[i].0@, ms[i].1@))
}

/// The marker sets that three lists of markers make up.
pub open spec fn markers_of(
    single_line: Seq<&str>,
    multi_line: Seq<(&str, &str)>,
    quotes: Seq<&str>,
) -> Markers {
    Markers {
        single_line: texts(single_line),
        multi_line: pair_texts(multi_line),
        quotes: texts(quotes),
    }
}

/// The lookbehind window of the given width after the text `seen`: its last
/// `width` characters, oldest first, with `None` in front where the text is
/// shorter.
pub open spec fn window_of(seen: Seq<char>, width: nat) -> Seq<Option<char>> {
    Seq::new(
        width,
        |j: int|
            if seen.len() - width + j >= 0 {
                Some(seen[seen.len() - width + j])
            } else {
                None
            },
    )
}

/// The last characters of the window are those of `marker`, none of them
/// absent.
pub open spec fn window_ends_with(window: Seq<Option<char>>, marker: Seq<char>) -> bool {
    &&& marker.len() <= window.len()
    &&& forall|k: int|
        0 <= k < marker.len() ==> #[trigger] window[window.len() - marker.len() + k] == Some(
            marker[k],
        )
}

/// Whether the window ends with the characters of `string`. A marker longer
/// than the window matches nothing.
pub fn lookbehind_matches(lookbehind: &VecDeque<Option<char>>, string: &str) -> (found: bool)
    ensures
        found == window_ends_with(lookbehind@, string@),
{
    let n: usize = string.unicode_len();
    if n > lookbehind.len() {
        return false;
    }
    let base: usize = lookbehind.len() - n;
    let mut same: bool = true;
    let mut at: usize = base;
    for c in it: string.chars()
        invariant
            it.seq() == string@,
            base + n == lookbehind@.len() <= usize::MAX,
            n == string@.len(),
            at == base + it.index(),
            same == forall|k: int|
                0 <= k < it.index() ==> #[trigger] lookbehind@[base + k] == Some(string@[k]),
    {
        if lookbehind[at] != Some(c) {
            same = false;
        }
        at = at + 1;
    }
    same
}

/// A window that holds the end of `seen` ends with a marker that fits in
/// it exactly when `seen` does.
pub proof fn lemma_window_match(seen: Seq<char>, width: nat, marker: Seq<char>)
    requires
        marker.len() <= width,
    ensures
        window_ends_with(window_of(seen, width), marker) == ends_with(seen, marker),
{
    let w = window_of(seen, width);
    let n = marker.len() as int;
    if window_ends_with(w, marker) {
        if n > 0 {
            assert(w[width - n + 0] == Some(marker[0]));
        }
        assert(n <= seen.len());
        assert forall|k: int| 0 <= k < n implies seen.subrange(seen.len() - n, seen.len() as int)[k]
            == marker[k] by {
            assert(w[width - n + k] == Some(marker[k]));
        }
        assert(seen.subrange(seen.len() - n, seen.len() as int) =~= marker);
    }
    if ends_with(seen, marker) {
        assert forall|k: int| 0 <= k < n implies #[trigger] w[w.len() - n + k] == Some(
            marker[k],
        ) by {
            assert(seen.subrange(seen.len() - n, seen.len() as int)[k] == marker[k]);
        }
    }
}

/// The length in characters of the longest of `ms`.
fn longest_marker(ms: &[&str]) -> (w: usize)
    ensures
        w == longest(texts(ms@)),
{
    let mut w: usize = 0;
    let mut i: usize = 0;
    while i < ms.len()
        invariant
            i <= ms.len(),
            w == longest(texts(ms@).take(i as int)),
        decreases ms.len() - i,
    {
        let n: usize = ms[i].unicode_len();
        assert(texts(ms@).take(i + 1).drop_last() =~= texts(ms@).take(i as int));
        if n > w {
            w = n;
        }
        i = i + 1;
    }
    assert(texts(ms@).take(ms.len() as int) =~= texts(ms@));
    w
}

/// The length in characters of the longest start or end marker in `ms`.
fn longest_marker_of_pairs(ms: &[(&str, &str)]) -> (w: usize)
    ensures
        w == longest_of_pairs(pair_texts(ms@)),
{
    let mut w: usize = 0;
    let mut i: usize = 0;
    while i < ms.len()
        invariant
            i <= ms.len(),
            w == longest_of_pairs(pair_texts(ms@).take(i as int)),
        decreases ms.len() - i,
    {
        let a: usize = ms[i].0.unicode_len();
        let b: usize = ms[i].1.unicode_len();
        assert(pair_texts(ms@).take(i + 1).drop_last() =~= pair_texts(ms@).take(i as int));
        if a > w {
            w = a;
        }
        if b > w {
            w = b;
        }
        i = i + 1;
    }
    assert(pair_texts(ms@).take(ms.len() as int) =~= pair_texts(ms@));
    w
}

/// The index of the first of `ms` that the window ends with.
fn find_marker(
    lookbehind: &VecDeque<Option<char>>,
    ms: &[&str],
    Ghost(seen): Ghost<Seq<char>>,
) -> (hit: Option<usize>)
    requires
        lookbehind@ == window_of(seen, lookbehind@.len()),
        longest(texts(ms@)) <= lookbehind@.len(),
    ensures
        match hit {
            Some(i) => i < ms.len() && first_match(texts(ms@), seen) == Some(i as int),
            None => first_match(texts(ms@), seen) is None,
        },
{
    let mut i: usize = 0;
    while i < ms.len()
        invariant
            i <= ms.len(),
            lookbehind@ == window_of(seen, lookbehind@.len()),
            longest(texts(ms@)) <= lookbehind@.len(),
            first_match(texts(ms@), seen) == first_match_from(texts(ms@), seen, i as int),
        decreases ms.len() - i,
    {
        proof {
            lemma_longest_bounds(texts(ms@), i as int);
            lemma_window_match(seen, lookbehind@.len(), ms[i as int]@);
        }
        if lookbehind_matches(lookbehind, ms[i]) {
            return Some(i);
        }
        i = i + 1;
    }
    None
}

/// The index of the first pair of `ms` whose start marker the window ends
/// with.
fn find_block_start(
    lookbehind: &VecDeque<Option<char>>,
    ms: &[(&str, &str)],
    Ghost(seen): Ghost<Seq<char>>,
) -> (hit: Option<usize>)
    requires
        lookbehind@ == window_of(seen, lookbehind@.len()),
        longest_of_pairs(pair_texts(ms@)) <= lookbehind@.len(),
    ensures
        match hit {
            Some(i) => i < ms.len() && first_match(starts(pair_texts(ms@)), seen) == Some(
                i as int,
            ),
            None => first_match(starts(pair_texts(ms@)), seen) is None,
        },
{
    let mut i: usize = 0;
    while i < ms.len()
        invariant
            i <= ms.len(),
            lookbehind@ == window_of(seen, lookbehind@.len()),
            longest_of_pairs(pair_texts(ms@)) <= lookbehind@.len(),
            first_match(starts(pair_texts(ms@)), seen) == first_match_from(
                starts(pair_texts(ms@)),
                seen,
                i as int,
            ),
        decreases ms.len() - i,
    {
        proof {
            lemma_longest_of_pairs_bounds(pair_texts(ms@), i as int);
            lemma_window_match(seen, lookbehind@.len(), ms[i as int].0@);
        }
        if lookbehind_matches(lookbehind, ms[i].0) {
            return Some(i);
        }
        i = i + 1;
    }
    None
}

/// Appends one character to a string.
///
/// States of `String::push` what its documentation says: the string
/// afterwards is the string before with `ch` at its end.
pub assume_specification[ String::push ](s: &mut String, ch: char)
    ensures
        final(s)@ == old(s)@.push(ch),
;

/// The string made of `chars` in order.
fn string_of(chars: &Vec<char>) -> (s: String)
    ensures
        s@ == chars@,
{
    let mut s = String::new();
    let mut i: usize = 0;
    while i < chars.len()
        invariant
            i <= chars.len(),
            s@ == chars@.take(i as int),
        decreases chars.len() - i,
    {
        s.push(chars[i]);
        assert(chars@.take(i + 1) =~= chars@.take(i as int).push(chars@[i as int]));
        i = i + 1;
    }
    assert(chars@.take(chars.len() as int) =~= chars@);
    s
}

/// Takes the last `n` characters off `kept`, or all of them where it has
/// fewer.
fn drop_last_chars(kept: &mut Vec<char>, n: usize)
    ensures
        final(kept)@ == without_last(old(kept)@, n as nat),
{
    let keep: usize = if n <= kept.len() {
        kept.len() - n
    } else {
        0
    };
    kept.truncate(keep);
    assert(kept@ =~= without_last(old(kept)@, n as nat));
}

/// What the scanner is inside of, with the end marker it waits for.
enum Phase<'a> {
    Normal,
    Quote(&'a str),
    LineComment,
    BlockComment(&'a str),
}

impl<'a> Phase<'a> {
    /// The end marker that is waited for fits in a window of `width`.
    spec fn fits(&self, width: nat) -> bool {
        match self {
            Phase::Quote(end) => end@.len() <= width,
            Phase::BlockComment(end) => end@.len() <= width,
            _ => true,
        }
    }
}

impl<'a> View for Phase<'a> {
    type V = Mode;

    closed spec fn view(&self) -> Mode {
        match self {
            Phase::Normal => Mode::Normal,
            Phase::Quote(end) => Mode::Quote(end@),
            Phase::LineComment => Mode::LineComment,
            Phase::BlockComment(end) => Mode::BlockComment(end@),
        }
    }
}

/// A configured scanner: the three marker sets and the width of the
/// lookbehind window they call for. It is never changed once made, and each
/// scan starts afresh.
pub struct Scanner<'a> {
    single_line: &'a [&'a str],
    multi_line: &'a [(&'a str, &'a str)],
    quotes: &'a [&'a str],
    width: usize,
}

impl<'a> View for Scanner<'a> {
    type V = Markers;

    closed spec fn view(&self) -> Markers {
        markers_of(self.single_line@, self.multi_line@, self.quotes@)
    }
}

/// Makes a scanner for the given markers: those that start a comment
/// running to the end of the line, the `(start, end)` pairs of block
/// comments, and the quote marks. Any of the lists may be empty.
pub fn strip_comments<'a>(
    single_line_markers: &'a [&'a str],
    multi_line_markers: &'a [(&'a str, &'a str)],
    quote_marks: &'a [&'a str],
) -> (scanner: Scanner<'a>)
    ensures
        scanner@ == markers_of(single_line_markers@, multi_line_markers@, quote_marks@),
{
    let single_line_max: usize = longest_marker(single_line_markers);
    let multi_line_max: usize = longest_marker_of_pairs(multi_line_markers);
    let quote_max: usize = longest_marker(quote_marks);
    let mut width: usize = single_line_max;
    if multi_line_max > width {
        width = multi_line_max;
    }
    if quote_max > width {
        width = quote_max;
    }
    Scanner {
        single_line: single_line_markers,
        multi_line: multi_line_markers,
        quotes: quote_marks,
        width,
    }
}

impl<'a> Scanner<'a> {
    #[verifier::type_invariant]
    spec fn width_is_longest(&self) -> bool {
        self.width == self@.width()
    }

    /// The width of the lookbehind window: the length in characters of the
    /// longest configured marker, 0 where there is none.
    pub fn lookbehind_width(&self) -> (w: usize)
        ensures
            w == self@.width(),
    {
        proof {
            use_type_invariant(self);
        }
        self.width
    }

    /// Strips the comments from `text`: copies it but for the comments,
    /// markers included, and the line terminator that ends a line comment.
    /// Quoted literals are copied whole and not searched for markers.
    pub fn scan(&self, text: &str) -> (out: String)
        ensures
            out@ == stripped(self@, text@),
    {
        proof {
            use_type_invariant(self);
        }
        let mut kept: Vec<char> = Vec::new();
        let mut lookbehind: VecDeque<Option<char>> = VecDeque::new();
        let mut filled: usize = 0;
        while filled < self.width
            invariant
                filled <= self.width,
                lookbehind@ == window_of(Seq::<char>::empty(), filled as nat),
            decreases self.width - filled,
        {
            lookbehind.push_back(None);
            filled = filled + 1;
            assert(lookbehind@ =~= window_of(Seq::<char>::empty(), filled as nat));
        }
        let mut phase: Phase<'a> = Phase::Normal;
        for c in it: text.chars()
            invariant
                it.seq() == text@,
                self.width == self@.width(),
                lookbehind@ == window_of(text@.take(it.index() as int), self.width as nat),
                phase.fits(self.width as nat),
                phase@ == state_after(self@, text@, it.index() as nat).mode,
                kept@ == state_after(self@, text@, it.index() as nat).out,
        {
            let ghost seen = text@.take(it.index() + 1);
            if self.width > 0 {
                lookbehind.pop_front();
                lookbehind.push_back(Some(c));
            }
            assert(lookbehind@ =~= window_of(seen, self.width as nat));
            match phase {
                Phase::Normal => {
                    kept.push(c);
                    if let Some(i) = find_marker(&lookbehind, self.single_line, Ghost(seen)) {
                        let n: usize = self.single_line[i].unicode_len();
                        drop_last_chars(&mut kept, n);
                        phase = Phase::LineComment;
                    } else if let Some(i) = find_block_start(
                        &lookbehind,
                        self.multi_line,
                        Ghost(seen),
                    ) {
                        let n: usize = self.multi_line[i].0.unicode_len();
                        drop_last_chars(&mut kept, n);
                        proof {
                            lemma_longest_of_pairs_bounds(self@.multi_line, i as int);
                        }
                        phase = Phase::BlockComment(self.multi_line[i].1);
                    } else if let Some(i) = find_marker(&lookbehind, self.quotes, Ghost(seen)) {
                        proof {
                            lemma_longest_bounds(self@.quotes, i as int);
                        }
                        phase = Phase::Quote(self.quotes[i]);
                    }
                },
                Phase::Quote(end) => {
                    kept.push(c);
                    proof {
                        lemma_window_match(seen, lookbehind@.len(), end@);
                    }
                    if lookbehind_matches(&lookbehind, end) {
                        phase = Phase::Normal;
                    }
                },
                Phase::LineComment => {
                    if c == '\n' || c == '\r' {
                        phase = Phase::Normal;
                    }
                },
                Phase::BlockComment(end) => {
                    proof {
                        lemma_window_match(seen, lookbehind@.len(), end@);
                    }
                    if lookbehind_matches(&lookbehind, end) {
                        phase = Phase::Normal;
                    }
                },
            }
        }
        string_of(&kept)
    }
}

/// The markers of C and the languages that write comments as it does:
/// `//` to the end of the line, `/*` to `*/`, and `"` around a literal.
pub open spec fn c_like_markers() -> Markers {
    Markers {
        single_line: seq![seq!['/', '/']],
        multi_line: seq![(seq!['/', '*'], seq!['*', '/'])],
        quotes: seq![seq!['"']],
    }
}

/// The markers of Python and the languages that write comments as it does:
/// `#` to the end of the line, no block comment, and `"` or `'` around a
/// literal.
pub open spec fn python_like_markers() -> Markers {
    Markers {
        single_line: seq![seq!['#']],
        multi_line: seq![],
        quotes: seq![seq!['"'], seq!['\'']],
    }
}

/// A scanner for C-like text.
pub fn c_like() -> (scanner: Scanner<'static>)
    ensures
        scanner@ == c_like_markers(),
{
    let scanner = strip_comments(&["//"], &[("/*", "*/")], &["\""]);
    proof {
        reveal_strlit("//");
        reveal_strlit("/*");
        reveal_strlit("*/");
        reveal_strlit("\"");
        let found = scanner@;
        let wanted = c_like_markers();
        assert(found.single_line.len() == 1 && found.single_line[0] =~= wanted.single_line[0]);
        assert(found.multi_line.len() == 1 && found.multi_line[0].0 =~= wanted.multi_line[0].0
            && found.multi_line[0].1 =~= wanted.multi_line[0].1);
        assert(found.quotes.len() == 1 && found.quotes[0] =~= wanted.quotes[0]);
        assert(found.single_line =~= wanted.single_line);
        assert(found.multi_line =~= wanted.multi_line);
        assert(found.quotes =~= wanted.quotes);
    }
    scanner
}

/// A scanner for Python-like text.
pub fn python_like() -> (scanner: Scanner<'static>)
    ensures
        scanner@ == python_like_markers(),
{
    let scanner = strip_comments(&["#"], &[], &["\"", "'"]);
    proof {
        reveal_strlit("#");
        reveal_strlit("\"");
        reveal_strlit("'");
        let found = scanner@;
        let wanted = python_like_markers();
        assert(found.single_line.len() == 1 && found.single_line[0] =~= wanted.single_line[0]);
        assert(found.multi_line.len() == 0);
        assert(found.quotes.len() == 2 && found.quotes[0] =~= wanted.quotes[0]
            && found.quotes[1] =~= wanted.quotes[1]);
        assert(found.single_line =~= wanted.single_line);
        assert(found.multi_line =~= wanted.multi_line);
        assert(found.quotes =~= wanted.quotes);
    }
    scanner
}

} // verus!
