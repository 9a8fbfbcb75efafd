//! What holds of every scan, proved from the model.

use crate::model::{
    ends_with, first_match, is_line_end, lemma_first_match_from, state_after, stripped, Markers,
    Mode, State,
};
use vstd::prelude::*;

verus! {

/// `marker` stands somewhere in `text`.
pub open spec fn occurs_in(marker: Seq<char>, text: Seq<char>) -> bool {
    exists|i: int|
        0 <= i && i + marker.len() <= text.len() && #[trigger] text.subrange(
            i,
            i + marker.len(),
        ) == marker
}

/// None of `ms` stands anywhere in `text`.
pub open spec fn none_occurs_in(ms: Seq<Seq<char>>, text: Seq<char>) -> bool {
    forall|i: int| 0 <= i < ms.len() ==> !occurs_in(#[trigger] ms[i], text)
}

/// `text` holds no marker that could start a comment or a quoted literal:
/// no line comment marker, no block comment start and no quote mark.
pub open spec fn free_of_start_markers(cfg: Markers, text: Seq<char>) -> bool {
    &&& none_occurs_in(cfg.single_line, text)
    &&& none_occurs_in(cfg.block_starts(), text)
    &&& none_occurs_in(cfg.quotes, text)
}

/// A marker that a prefix of `text` ends with stands in `text`.
proof fn lemma_end_is_occurrence(text: Seq<char>, n: int, marker: Seq<char>)
    requires
        0 <= n <= text.len(),
        ends_with(text.take(n), marker),
    ensures
        occurs_in(marker, text),
{
    let i = n - marker.len();
    assert(text.subrange(i, i + marker.len()) =~= text.take(n).subrange(i, n));
}

/// Where none of `ms` stands in `text`, none is found at the end of a
/// prefix of it.
proof fn lemma_no_match(ms: Seq<Seq<char>>, text: Seq<char>, n: int)
    requires
        0 <= n <= text.len(),
        none_occurs_in(ms, text),
    ensures
        first_match(ms, text.take(n)) is None,
{
    let seen = text.take(n);
    lemma_first_match_from(ms, seen, 0);
    if let Some(i) = first_match(ms, seen) {
        lemma_end_is_occurrence(text, n, ms[i]);
    }
}

/// No start marker of any kind is found at the end of `seen`.
pub open spec fn starts_nothing(cfg: Markers, seen: Seq<char>) -> bool {
    &&& first_match(cfg.single_line, seen) is None
    &&& first_match(cfg.block_starts(), seen) is None
    &&& first_match(cfg.quotes, seen) is None
}

/// In normal mode every character is copied: as long as no start marker is
/// completed, the mode stays normal and the output grows by what was read.
pub proof fn law_plain_text_is_copied(cfg: Markers, text: Seq<char>, n: nat, m: nat)
    requires
        n <= m <= text.len(),
        state_after(cfg, text, n).mode is Normal,
        forall|k: int| n < k <= m ==> starts_nothing(cfg, #[trigger] text.take(k)),
    ensures
        state_after(cfg, text, m) == (State {
            mode: Mode::Normal,
            out: state_after(cfg, text, n).out + text.subrange(n as int, m as int),
        }),
    decreases m,
{
    let before = state_after(cfg, text, n);
    if n < m {
        law_plain_text_is_copied(cfg, text, n, (m - 1) as nat);
        assert(starts_nothing(cfg, text.take(m as int)));
        assert((before.out + text.subrange(n as int, m - 1)).push(text.take(m as int).last())
            =~= before.out + text.subrange(n as int, m as int));
    } else {
        assert(before.out + text.subrange(n as int, m as int) =~= before.out);
    }
}

/// A text in which no start marker occurs is left as it is. (Block comment
/// end markers may occur: outside a comment they mean nothing.)
pub proof fn law_identity_without_markers(cfg: Markers, text: Seq<char>)
    requires
        free_of_start_markers(cfg, text),
    ensures
        stripped(cfg, text) == text,
{
    assert forall|k: int| 0 < k <= text.len() implies starts_nothing(
        cfg,
        #[trigger] text.take(k),
    ) by {
        lemma_no_match(cfg.single_line, text, k);
        lemma_no_match(cfg.block_starts(), text, k);
        lemma_no_match(cfg.quotes, text, k);
    }
    law_plain_text_is_copied(cfg, text, 0, text.len());
    assert(Seq::<char>::empty() + text.subrange(0, text.len() as int) =~= text);
}

/// With no marker of any kind configured, every text is left as it is.
pub proof fn law_identity_without_configuration(cfg: Markers, text: Seq<char>)
    requires
        cfg.single_line.len() == 0,
        cfg.multi_line.len() == 0,
        cfg.quotes.len() == 0,
    ensures
        stripped(cfg, text) == text,
{
    law_identity_without_markers(cfg, text);
}

/// The scan of `text` enters no comment.
pub open spec fn never_in_comment(cfg: Markers, text: Seq<char>) -> bool {
    forall|k: int|
        0 <= k <= text.len() ==> !is_comment(#[trigger] state_after(cfg, text, k as nat).mode)
}

/// As long as no comment is entered, all that was read has been copied.
proof fn lemma_copied_outside_comments(cfg: Markers, text: Seq<char>, n: nat)
    requires
        n <= text.len(),
        never_in_comment(cfg, text),
    ensures
        state_after(cfg, text, n).out == text.take(n as int),
    decreases n,
{
    if n == 0 {
        assert(text.take(0) =~= Seq::<char>::empty());
    } else {
        lemma_copied_outside_comments(cfg, text, (n - 1) as nat);
        assert(!is_comment(state_after(cfg, text, (n - 1) as nat).mode));
        assert(!is_comment(state_after(cfg, text, n).mode));
        assert(text.take(n - 1).push(text.take(n as int).last()) =~= text.take(n as int));
    }
}

/// The output is never longer than what was read.
proof fn lemma_output_bound(cfg: Markers, text: Seq<char>, n: nat)
    requires
        n <= text.len(),
    ensures
        state_after(cfg, text, n).out.len() <= n,
    decreases n,
{
    if n > 0 {
        lemma_output_bound(cfg, text, (n - 1) as nat);
    }
}

/// Once a comment with a marker of at least one character has been
/// entered, the output is shorter than what was read.
proof fn lemma_shorter_after_comment(cfg: Markers, text: Seq<char>, j: nat, n: nat)
    requires
        j <= n <= text.len(),
        cfg.all_nonempty(),
        is_comment(state_after(cfg, text, j).mode),
    ensures
        state_after(cfg, text, n).out.len() < n,
    decreases n,
{
    if j < n {
        lemma_shorter_after_comment(cfg, text, j, (n - 1) as nat);
    } else {
        let before = state_after(cfg, text, (n - 1) as nat);
        let seen = text.take(n as int);
        if is_comment(before.mode) {
            lemma_shorter_after_comment(cfg, text, (n - 1) as nat, (n - 1) as nat);
        } else {
            lemma_output_bound(cfg, text, (n - 1) as nat);
            lemma_first_match_from(cfg.single_line, seen, 0);
            lemma_first_match_from(cfg.block_starts(), seen, 0);
        }
    }
}

/// The output is never longer than the text.
pub proof fn law_output_is_no_longer(cfg: Markers, text: Seq<char>)
    ensures
        stripped(cfg, text).len() <= text.len(),
{
    lemma_output_bound(cfg, text, text.len());
}

/// A text is left as it is exactly when its scan enters no comment, given
/// that no marker is empty. Quoted literals may hold any marker.
pub proof fn law_unchanged_iff_no_comment(cfg: Markers, text: Seq<char>)
    requires
        cfg.all_nonempty(),
    ensures
        stripped(cfg, text) == text <==> never_in_comment(cfg, text),
{
    if never_in_comment(cfg, text) {
        lemma_copied_outside_comments(cfg, text, text.len());
        assert(text.take(text.len() as int) =~= text);
    } else {
        let j = choose|j: int|
            0 <= j <= text.len() && is_comment(#[trigger] state_after(cfg, text, j as nat).mode);
        lemma_shorter_after_comment(cfg, text, j as nat, text.len());
    }
}

/// A second scan changes nothing where it enters no comment, whatever the
/// markers; and, where no marker is empty, only there.
pub proof fn law_second_scan_changes_nothing(cfg: Markers, text: Seq<char>)
    ensures
        never_in_comment(cfg, stripped(cfg, text)) ==> stripped(cfg, stripped(cfg, text))
            == stripped(cfg, text),
        cfg.all_nonempty() && stripped(cfg, stripped(cfg, text)) == stripped(cfg, text)
            ==> never_in_comment(cfg, stripped(cfg, text)),
{
    let once = stripped(cfg, text);
    if never_in_comment(cfg, once) {
        lemma_copied_outside_comments(cfg, once, once.len());
        assert(once.take(once.len() as int) =~= once);
    }
    if cfg.all_nonempty() {
        law_unchanged_iff_no_comment(cfg, once);
    }
}

/// Once a scan has left no start marker in its output, a second scan
/// changes nothing.
pub proof fn law_second_scan_without_markers(cfg: Markers, text: Seq<char>)
    requires
        free_of_start_markers(cfg, stripped(cfg, text)),
    ensures
        stripped(cfg, stripped(cfg, text)) == stripped(cfg, text),
{
    law_identity_without_markers(cfg, stripped(cfg, text));
}

/// The character that ends `seen` ends the comment or literal of `mode`:
/// `seen` ends with the end marker that is waited for or, in a line
/// comment, with a line terminator.
pub open spec fn closes(mode: Mode, seen: Seq<char>) -> bool {
    match mode {
        Mode::Normal => false,
        Mode::Quote(end) => ends_with(seen, end),
        Mode::LineComment => is_line_end(seen.last()),
        Mode::BlockComment(end) => ends_with(seen, end),
    }
}

/// `mode` is inside a comment of either kind.
pub open spec fn is_comment(mode: Mode) -> bool {
    mode is LineComment || mode is BlockComment
}

/// Nothing between the positions `n` and `m` of `text`, the character that
/// ends at `m` included, closes what `mode` is inside of.
pub open spec fn stays_open(mode: Mode, text: Seq<char>, n: nat, m: nat) -> bool {
    forall|k: int| n < k <= m ==> !closes(mode, #[trigger] text.take(k))
}

/// A comment or a literal is entered only from normal mode, and left only
/// for it.
pub proof fn law_modes_change_through_normal(cfg: Markers, text: Seq<char>, n: nat)
    requires
        0 < n <= text.len(),
    ensures
        state_after(cfg, text, n).mode == state_after(cfg, text, (n - 1) as nat).mode
            || state_after(cfg, text, n).mode is Normal || state_after(
            cfg,
            text,
            (n - 1) as nat,
        ).mode is Normal,
{
}

/// `seen` ends with one of `ms`.
pub open spec fn ends_with_any(ms: Seq<Seq<char>>, seen: Seq<char>) -> bool {
    exists|i: int| 0 <= i < ms.len() && ends_with(seen, #[trigger] ms[i])
}

/// Which kind of marker wins where several are completed by the same
/// character in normal mode: a line comment before a block comment, and
/// either before a quote.
pub proof fn law_start_priority(cfg: Markers, text: Seq<char>, n: nat)
    requires
        0 < n <= text.len(),
        state_after(cfg, text, (n - 1) as nat).mode is Normal,
    ensures
        ({
            let seen = text.take(n as int);
            let mode = state_after(cfg, text, n).mode;
            let line = ends_with_any(cfg.single_line, seen);
            let block = ends_with_any(cfg.block_starts(), seen);
            let quote = ends_with_any(cfg.quotes, seen);
            &&& mode is LineComment <==> line
            &&& mode is BlockComment <==> !line && block
            &&& mode is Quote <==> !line && !block && quote
            &&& mode is Normal <==> !line && !block && !quote
        }),
{
    let seen = text.take(n as int);
    lemma_first_match_from(cfg.single_line, seen, 0);
    lemma_first_match_from(cfg.block_starts(), seen, 0);
    lemma_first_match_from(cfg.quotes, seen, 0);
}

/// The length of the comment start marker that wins at the end of `seen`,
/// if one is completed there.
pub open spec fn comment_start_len(cfg: Markers, seen: Seq<char>) -> Option<nat> {
    match first_match(cfg.single_line, seen) {
        Some(i) => Some(cfg.single_line[i].len()),
        None => match first_match(cfg.block_starts(), seen) {
            Some(i) => Some(cfg.multi_line[i].0.len()),
            None => None,
        },
    }
}

/// A comment's start marker leaves the output with the comment: where its
/// characters were read in normal mode and completed no other marker on
/// the way, the output at the start of the comment is the output from
/// before the marker.
pub proof fn law_comment_start_is_taken_back(cfg: Markers, text: Seq<char>, n: nat, len: nat)
    requires
        0 < len <= n <= text.len(),
        state_after(cfg, text, (n - len) as nat).mode is Normal,
        forall|k: int| n - len < k < n ==> starts_nothing(cfg, #[trigger] text.take(k)),
        comment_start_len(cfg, text.take(n as int)) == Some(len),
    ensures
        is_comment(state_after(cfg, text, n).mode),
        state_after(cfg, text, n).out == state_after(cfg, text, (n - len) as nat).out,
{
    let before = state_after(cfg, text, (n - len) as nat);
    law_plain_text_is_copied(cfg, text, (n - len) as nat, (n - 1) as nat);
    let copied = before.out + text.subrange(n - len, n - 1);
    assert(copied.push(text.take(n as int).last()).take(before.out.len() as int) =~= before.out);
}

/// Inside a comment nothing is copied and no marker but its end is looked
/// for: as long as the comment is not closed, mode and output stay as they
/// are. A comment still open at the end of the text takes the rest of it.
pub proof fn law_comment_is_dropped(cfg: Markers, text: Seq<char>, n: nat, m: nat)
    requires
        n <= m <= text.len(),
        is_comment(state_after(cfg, text, n).mode),
        stays_open(state_after(cfg, text, n).mode, text, n, m),
    ensures
        state_after(cfg, text, m) == state_after(cfg, text, n),
        m == text.len() ==> stripped(cfg, text) == state_after(cfg, text, n).out,
    decreases m,
{
    if n < m {
        law_comment_is_dropped(cfg, text, n, (m - 1) as nat);
        assert(!closes(state_after(cfg, text, n).mode, text.take(m as int)));
    }
}

/// The character that closes a comment is dropped with it: the last of the
/// end marker, or the line terminator. The scanner is then back in normal
/// mode with the output it had inside the comment.
pub proof fn law_comment_end_is_dropped(cfg: Markers, text: Seq<char>, n: nat, m: nat)
    requires
        n < m <= text.len(),
        is_comment(state_after(cfg, text, n).mode),
        stays_open(state_after(cfg, text, n).mode, text, n, (m - 1) as nat),
        closes(state_after(cfg, text, n).mode, text.take(m as int)),
    ensures
        state_after(cfg, text, m) == (State {
            mode: Mode::Normal,
            out: state_after(cfg, text, n).out,
        }),
{
    law_comment_is_dropped(cfg, text, n, (m - 1) as nat);
}

/// Inside a quoted literal every character is copied and no marker but the
/// literal's own quote mark is looked for: as long as the literal is not
/// closed, the mode stays and the output grows by what was read. A literal
/// still open at the end of the text is copied to the end.
pub proof fn law_quote_is_copied(cfg: Markers, text: Seq<char>, n: nat, m: nat)
    requires
        n <= m <= text.len(),
        state_after(cfg, text, n).mode is Quote,
        stays_open(state_after(cfg, text, n).mode, text, n, m),
    ensures
        state_after(cfg, text, m) == (State {
            mode: state_after(cfg, text, n).mode,
            out: state_after(cfg, text, n).out + text.subrange(n as int, m as int),
        }),
        m == text.len() ==> stripped(cfg, text) == state_after(cfg, text, n).out + text.subrange(
            n as int,
            m as int,
        ),
    decreases m,
{
    let before = state_after(cfg, text, n);
    if n < m {
        law_quote_is_copied(cfg, text, n, (m - 1) as nat);
        assert(!closes(before.mode, text.take(m as int)));
        assert((before.out + text.subrange(n as int, m - 1)).push(text.take(m as int).last())
            =~= before.out + text.subrange(n as int, m as int));
    } else {
        assert(before.out + text.subrange(n as int, m as int) =~= before.out);
    }
}

/// The quote mark that closes a literal is copied with it, and the scanner
/// is back in normal mode.
pub proof fn law_quote_end_is_copied(cfg: Markers, text: Seq<char>, n: nat, m: nat)
    requires
        n < m <= text.len(),
        state_after(cfg, text, n).mode is Quote,
        stays_open(state_after(cfg, text, n).mode, text, n, (m - 1) as nat),
        closes(state_after(cfg, text, n).mode, text.take(m as int)),
    ensures
        state_after(cfg, text, m) == (State {
            mode: Mode::Normal,
            out: state_after(cfg, text, n).out + text.subrange(n as int, m as int),
        }),
{
    let before = state_after(cfg, text, n);
    law_quote_is_copied(cfg, text, n, (m - 1) as nat);
    assert((before.out + text.subrange(n as int, m - 1)).push(text.take(m as int).last())
        =~= before.out + text.subrange(n as int, m as int));
}

} // verus!
