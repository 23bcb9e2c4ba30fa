//! What holds of an answer however it is cut into pieces.

use vstd::prelude::*;
use vstd::utf8::{char_is_scalar, encode_scalar, encode_utf8};

use crate::json::{flag_in, word_in};
use crate::prompt::END_MARKER;
use crate::streaming::{after, break_after, char_bytes, clearing, equation_in, equation_line, filter_from, filter_step, filter_text, first_occurrence, flushed, fresh_flow, lemma_text_bytes_skip, sanitized, short_tail, text_before, text_bytes, total_length, Filtered, Flow, Incident, TAIL_BYTES};
use crate::text::{ascending, contains, decimal, lemma_with_text, occurs_at, split_where, with_text, without};

verus! {

/// Law: it does not matter into which pieces a text is cut before it is filtered.
pub proof fn law_filter_in_pieces(state: Filtered, first: Seq<char>, second: Seq<char>)
    ensures
        filter_text(state, first + second) == filter_text(filter_text(state, first), second),
    decreases second.len(),
{
    if second.len() == 0 {
        assert(first + second == first);
    } else {
        law_filter_in_pieces(state, first, second.drop_last());
        assert((first + second).drop_last() == first + second.drop_last());
    }
}

/// The lines of a text without those that name a reaction equation.
pub open spec fn kept_lines(lines: Seq<Seq<char>>) -> Seq<char>
    decreases lines.len(),
{
    if lines.len() == 0 {
        Seq::empty()
    } else if contains(lines.last(), "反応式"@) {
        kept_lines(lines.drop_last())
    } else {
        kept_lines(lines.drop_last()) + lines.last().push('\n')
    }
}

/// The lines of a text; the last one is not ended by a line break.
pub open spec fn lines_of(text: Seq<char>) -> Seq<Seq<char>> {
    split_where(text, |c: char| c == '\n')
}

/// A pattern in the first part of a text is in the text.
proof fn lemma_contains_grows(text: Seq<char>, more: Seq<char>, pattern: Seq<char>)
    requires
        contains(text, pattern),
    ensures
        contains(text + more, pattern),
{
    let i = choose|i: int| occurs_at(text, pattern, i);
    assert((text + more).subrange(i, i + pattern.len()) == text.subrange(i, i + pattern.len()));
    assert(occurs_at(text + more, pattern, i));
}

/// A pattern in the last part of a text is in the text.
proof fn lemma_contains_in_front(front: Seq<char>, text: Seq<char>, pattern: Seq<char>)
    requires
        contains(text, pattern),
    ensures
        contains(front + text, pattern),
{
    let i = choose|i: int| occurs_at(text, pattern, i);
    let at = front.len() + i;
    assert((front + text).subrange(at, at + pattern.len()) == text.subrange(i, i + pattern.len()));
    assert(occurs_at(front + text, pattern, at));
}

/// A line break completes no pattern that ends otherwise.
proof fn lemma_line_break_completes_nothing(line: Seq<char>, pattern: Seq<char>)
    requires
        pattern.len() > 0,
        pattern.last() != '\n',
        !contains(line, pattern),
    ensures
        !contains(line.push('\n'), pattern),
{
    let longer = line.push('\n');
    if contains(longer, pattern) {
        let i = choose|i: int| occurs_at(longer, pattern, i);
        if i + pattern.len() <= line.len() {
            assert(line.subrange(i, i + pattern.len()) == longer.subrange(i, i + pattern.len()));
            assert(occurs_at(line, pattern, i));
        } else {
            assert(longer.subrange(i, i + pattern.len()).last() == '\n');
        }
    }
}

/// Law: what the filter passes on are the complete lines that do not name a reaction equation, as
/// they stand; it holds back the line that is not complete, and drops it as soon as it names one.
pub proof fn law_filter_by_lines(text: Seq<char>)
    ensures
        lines_of(text).len() > 0,
        filter_text(filter_from(Seq::empty(), false), text) == (Filtered {
            shown: kept_lines(lines_of(text).drop_last()),
            held: if contains(lines_of(text).last(), "反応式"@) {
                Seq::empty()
            } else {
                lines_of(text).last()
            },
            muted: contains(lines_of(text).last(), "反応式"@),
        }),
    decreases text.len(),
{
    reveal_strlit("反応式");
    let mark = "反応式"@;
    let lines = lines_of(text);
    if text.len() == 0 {
        assert(lines.drop_last() == Seq::<Seq<char>>::empty());
        assert(!contains(lines.last(), mark));
    } else {
        let c = text.last();
        law_filter_by_lines(text.drop_last());
        let before = lines_of(text.drop_last());
        let state = filter_text(filter_from(Seq::empty(), false), text.drop_last());
        let line = before.last();
        if c == '\n' {
            assert(lines.drop_last() == before);
            assert(!contains(lines.last(), mark));
            if !state.muted {
                lemma_line_break_completes_nothing(line, mark);
            }
        } else {
            assert(lines.drop_last() == before.drop_last());
            if state.muted {
                lemma_contains_grows(line, seq![c], mark);
                assert(line + seq![c] == line.push(c));
            }
        }
    }
}

/// Whether the filter is in a state that it can be in: what it holds is the start of a line that
/// names no reaction equation, and it holds nothing of a line that it drops.
pub open spec fn valid_filter(held: Seq<char>, muted: bool) -> bool {
    &&& !contains(held, "反応式"@)
    &&& !held.contains('\n')
    &&& muted ==> held.len() == 0
}

/// The start of a line that puts the filter into a state.
pub open spec fn line_so_far(held: Seq<char>, muted: bool) -> Seq<char> {
    if muted {
        "反応式"@
    } else {
        held
    }
}

/// A text without a line break is one line.
proof fn lemma_one_line(text: Seq<char>)
    requires
        !text.contains('\n'),
    ensures
        lines_of(text) == seq![text],
    decreases text.len(),
{
    let one = Seq::<char>::empty();
    if text.len() == 0 {
        assert(text == one);
    } else {
        let front = text.drop_last();
        assert(text[text.len() - 1] != '\n');
        if front.contains('\n') {
            let k = choose|k: int| 0 <= k < front.len() && front[k] == '\n';
            assert(text[k] == '\n');
        }
        lemma_one_line(front);
        assert(seq![front].drop_last() == Seq::<Seq<char>>::empty());
        assert(front.push(text.last()) == text);
    }
}

/// What was passed on before does not matter to what is passed on next.
proof fn lemma_filter_shown(shown: Seq<char>, held: Seq<char>, muted: bool, text: Seq<char>)
    ensures
        filter_text(Filtered { shown, held, muted }, text) == (Filtered {
            shown: shown + filter_text(filter_from(held, muted), text).shown,
            ..filter_text(filter_from(held, muted), text)
        }),
    decreases text.len(),
{
    if text.len() == 0 {
        assert(shown + Seq::<char>::empty() == shown);
    } else {
        lemma_filter_shown(shown, held, muted, text.drop_last());
        let before = filter_text(filter_from(held, muted), text.drop_last());
        let line = before.held.push(text.last());
        assert(shown + (before.shown + line) == (shown + before.shown) + line);
    }
}

/// Each line of a text is free of line breaks.
proof fn lemma_last_line(text: Seq<char>)
    ensures
        lines_of(text).len() > 0,
        !lines_of(text).last().contains('\n'),
    decreases text.len(),
{
    if text.len() > 0 {
        lemma_last_line(text.drop_last());
        let before = lines_of(text.drop_last()).last();
        let now = lines_of(text).last();
        if now.contains('\n') && text.last() != '\n' {
            let k = choose|k: int| 0 <= k < now.len() && now[k] == '\n';
            assert(before[k] == '\n');
        }
    }
}

/// Law: from any state that it can be in, the filter loses nothing. It passes on the complete lines
/// that do not name a reaction equation, as they stand, the line that was under way being one of
/// them; it holds back the line that is not complete, and ends in a state that it can be in.
pub proof fn law_filter_keeps_its_state(
    shown: Seq<char>,
    held: Seq<char>,
    muted: bool,
    text: Seq<char>,
)
    requires
        valid_filter(held, muted),
    ensures
        ({
            let lines = lines_of(line_so_far(held, muted) + text);
            let named = contains(lines.last(), "反応式"@);
            let next = filter_text(Filtered { shown, held, muted }, text);
            &&& lines.len() > 0
            &&& next.shown == shown + kept_lines(lines.drop_last())
            &&& next.muted == named
            &&& next.held == (if named {
                Seq::empty()
            } else {
                lines.last()
            })
            &&& valid_filter(next.held, next.muted)
        }),
{
    reveal_strlit("反応式");
    let mark = "反応式"@;
    let start = line_so_far(held, muted);
    let fresh = filter_from(Seq::empty(), false);
    assert(!start.contains('\n'));
    lemma_one_line(start);
    law_filter_by_lines(start);
    assert(seq![start].drop_last() == Seq::<Seq<char>>::empty());
    assert(contains(mark, mark)) by {
        assert(mark.subrange(0, mark.len() as int) == mark);
        assert(occurs_at(mark, mark, 0));
    }
    assert(filter_text(fresh, start) == filter_from(held, muted)) by {
        if muted {
            assert(held == Seq::<char>::empty());
        }
    }
    law_filter_in_pieces(fresh, start, text);
    law_filter_by_lines(start + text);
    lemma_filter_shown(shown, held, muted, text);
    lemma_last_line(start + text);
    assert(!contains(Seq::<char>::empty(), mark));
}

/// Whether a text is one character over and over.
spec fn uniform(pattern: Seq<char>, c: char) -> bool {
    forall|i: int| 0 <= i < pattern.len() ==> #[trigger] pattern[i] == c
}

/// How many characters at the start of a text are `c`.
spec fn leading(text: Seq<char>, c: char) -> nat
    decreases text.len(),
{
    if text.len() > 0 && text[0] == c {
        leading(text.drop_first(), c) + 1
    } else {
        0
    }
}

/// A run of one character stands at the start of a text if and only if it is not longer than the
/// run that the text starts with.
proof fn lemma_leading(text: Seq<char>, pattern: Seq<char>, c: char)
    requires
        uniform(pattern, c),
    ensures
        leading(text, c) <= text.len(),
        occurs_at(text, pattern, 0) <==> pattern.len() <= leading(text, c),
        occurs_at(text, pattern, 0) ==> leading(text, c) == pattern.len() + leading(
            text.skip(pattern.len() as int),
            c,
        ),
    decreases text.len(),
{
    let k = pattern.len() as int;
    if k == 0 {
        assert(text.subrange(0, 0) == pattern);
        assert(text.skip(0) == text);
        if text.len() > 0 {
            lemma_leading(text.drop_first(), pattern, c);
        }
    } else if text.len() > 0 {
        let shorter = pattern.drop_first();
        let rest = text.drop_first();
        assert forall|i: int| 0 <= i < shorter.len() implies #[trigger] shorter[i] == c by {
            assert(pattern[i + 1] == c);
        }
        lemma_leading(rest, shorter, c);
        if text[0] == c {
            if occurs_at(text, pattern, 0) {
                assert(rest.subrange(0, k - 1) == text.subrange(0, k).drop_first());
                assert(occurs_at(rest, shorter, 0));
                assert(rest.skip(k - 1) == text.skip(k));
            }
            if occurs_at(rest, shorter, 0) {
                assert(pattern[0] == c);
                assert forall|i: int| 0 <= i < k implies text.subrange(0, k)[i] == pattern[i] by {
                    if i > 0 {
                        assert(rest.subrange(0, k - 1)[i - 1] == shorter[i - 1]);
                    }
                }
                assert(text.subrange(0, k) == pattern);
            }
        } else if occurs_at(text, pattern, 0) {
            assert(text.subrange(0, k)[0] == text[0]);
            assert(pattern[0] == c);
        }
    }
}

/// What is left of a text without a run of one character does not hold that run, and starts with
/// a run that is shorter.
proof fn lemma_without_run(text: Seq<char>, pattern: Seq<char>, c: char)
    requires
        pattern.len() > 0,
        uniform(pattern, c),
    ensures
        !contains(without(text, pattern), pattern),
        leading(without(text, pattern), c) < pattern.len(),
        leading(text, c) < pattern.len() ==> leading(without(text, pattern), c) == leading(text, c),
    decreases text.len(),
{
    let left = without(text, pattern);
    lemma_leading(text, pattern, c);
    if text.len() == 0 {
    } else if occurs_at(text, pattern, 0) {
        lemma_without_run(text.skip(pattern.len() as int), pattern, c);
    } else {
        let rest = text.drop_first();
        let tail = without(rest, pattern);
        lemma_without_run(rest, pattern, c);
        assert(left[0] == text[0]);
        assert(left.drop_first() == tail);
        lemma_leading(left, pattern, c);
        if contains(left, pattern) {
            let i = choose|i: int| occurs_at(left, pattern, i);
            if i > 0 {
                assert(tail.subrange(i - 1, i - 1 + pattern.len()) == left.subrange(
                    i,
                    i + pattern.len(),
                ));
                assert(occurs_at(tail, pattern, i - 1));
            }
        }
    }
}

/// A text without the first character of a pattern stays as it is.
proof fn lemma_without_nothing(text: Seq<char>, pattern: Seq<char>)
    requires
        pattern.len() > 0,
        !text.contains(pattern[0]),
    ensures
        without(text, pattern) == text,
    decreases text.len(),
{
    if text.len() > 0 {
        if occurs_at(text, pattern, 0) {
            assert(text.subrange(0, pattern.len() as int)[0] == text[0]);
            assert(text.contains(text[0]));
        }
        let rest = text.drop_first();
        if rest.contains(pattern[0]) {
            let i = choose|i: int| 0 <= i < rest.len() && rest[i] == pattern[0];
            assert(text[i + 1] == pattern[0]);
        }
        lemma_without_nothing(rest, pattern);
        assert(seq![text[0]] + rest == text);
    }
}

/// No character arises where a pattern is taken out.
proof fn lemma_without_adds_nothing(text: Seq<char>, pattern: Seq<char>, c: char)
    requires
        !text.contains(c),
    ensures
        !without(text, pattern).contains(c),
    decreases text.len(),
{
    if text.len() > 0 && pattern.len() > 0 {
        let left = without(text, pattern);
        let rest = if occurs_at(text, pattern, 0) {
            text.skip(pattern.len() as int)
        } else {
            text.drop_first()
        };
        if rest.contains(c) {
            let i = choose|i: int| 0 <= i < rest.len() && rest[i] == c;
            assert(text[text.len() - rest.len() + i] == c);
        }
        lemma_without_adds_nothing(rest, pattern, c);
        if left.contains(c) && !occurs_at(text, pattern, 0) {
            let i = choose|i: int| 0 <= i < left.len() && left[i] == c;
            if i == 0 {
                assert(text[0] == c);
            } else {
                assert(without(rest, pattern)[i - 1] == c);
            }
        }
    }
}

/// Law: a text that was cleaned holds no mark of code; no mark of emphasis by underscores unless
/// back quotes stood between them, and none by asterisks unless underscores or back quotes did.
pub proof fn law_marks_are_taken_out(text: Seq<char>)
    ensures
        !contains(sanitized(text), "```"@),
        !text.contains('`') ==> !contains(sanitized(text), "__"@),
        !text.contains('`') && !text.contains('_') ==> !contains(sanitized(text), "**"@),
{
    reveal_strlit("**");
    reveal_strlit("__");
    reveal_strlit("```");
    let first = without(text, "**"@);
    let second = without(first, "__"@);
    lemma_without_run(text, "**"@, '*');
    lemma_without_run(first, "__"@, '_');
    lemma_without_run(second, "```"@, '`');
    if !text.contains('`') {
        lemma_without_adds_nothing(text, "**"@, '`');
        lemma_without_adds_nothing(first, "__"@, '`');
        lemma_without_nothing(second, "```"@);
        if !text.contains('_') {
            lemma_without_adds_nothing(text, "**"@, '_');
            lemma_without_nothing(first, "__"@);
        }
    }
}

/// A text that arrived in pieces.
pub open spec fn whole(pieces: Seq<Seq<char>>) -> Seq<char>
    decreases pieces.len(),
{
    if pieces.len() == 0 {
        Seq::empty()
    } else {
        whole(pieces.drop_last()) + pieces.last()
    }
}

/// What was shown of a text that arrives in pieces, and what waits, where each piece is flushed
/// as it arrives.
pub open spec fn streamed(pieces: Seq<Seq<char>>) -> (Seq<char>, Seq<char>)
    decreases pieces.len(),
{
    if pieces.len() == 0 {
        (Seq::empty(), Seq::empty())
    } else {
        let (shown, pending) = streamed(pieces.drop_last());
        let (now, rest) = flushed(pending + pieces.last(), false);
        (shown + now, rest)
    }
}

proof fn lemma_text_bytes_concat(first: Seq<char>, second: Seq<char>)
    ensures
        text_bytes(first + second) == text_bytes(first) + text_bytes(second),
    decreases first.len(),
{
    if first.len() == 0 {
        assert(first + second == second);
    } else {
        lemma_text_bytes_concat(first.drop_first(), second);
        assert((first + second).drop_first() == first.drop_first() + second);
    }
}

proof fn lemma_ascii_bytes(text: Seq<char>)
    requires
        forall|i: int| 0 <= i < text.len() ==> #[trigger] text[i] <= '\u{7f}',
    ensures
        text_bytes(text) == text.len(),
    decreases text.len(),
{
    if text.len() > 0 {
        assert(text[0] <= '\u{7f}');
        assert forall|i: int| 0 <= i < text.drop_first().len() implies #[trigger] text.drop_first()[i]
            <= '\u{7f}' by {
            assert(text[i + 1] <= '\u{7f}');
        }
        lemma_ascii_bytes(text.drop_first());
    }
}

/// What [`short_tail`] cuts off.
proof fn lemma_short_tail(text: Seq<char>)
    ensures
        short_tail(text).len() <= text.len(),
        short_tail(text) == text.skip(text.len() - short_tail(text).len()),
        short_tail(text).len() < text.len() ==> text_bytes(
            text.skip(text.len() - short_tail(text).len() - 1),
        ) > TAIL_BYTES,
    decreases text.len(),
{
    if text_bytes(text) <= TAIL_BYTES || text.len() == 0 {
        assert(text.skip(0) == text);
    } else {
        let rest = text.drop_first();
        lemma_short_tail(rest);
        let n = rest.len() - short_tail(rest).len();
        assert(rest.skip(n) == text.skip(n + 1));
        if n > 0 {
            assert(rest.skip(n - 1) == text.skip(n));
        } else {
            assert(text.skip(0) == text);
        }
    }
}

/// While no marker arrived, nothing is lost, and what was shown ends too early for a marker to
/// start in it.
proof fn lemma_streamed(pieces: Seq<Seq<char>>)
    requires
        !contains(whole(pieces), END_MARKER@),
    ensures
        streamed(pieces).0 + streamed(pieces).1 == whole(pieces),
        streamed(pieces).0.len() > 0 ==> text_bytes(
            whole(pieces).skip(streamed(pieces).0.len() - 1),
        ) > TAIL_BYTES,
    decreases pieces.len(),
{
    if pieces.len() > 0 {
        let marker = END_MARKER@;
        let front = pieces.drop_last();
        let last = pieces.last();
        let before = whole(front);
        let now = whole(pieces);
        if contains(before, marker) {
            lemma_contains_grows(before, last, marker);
        }
        lemma_streamed(front);
        let (shown, pending) = streamed(front);
        let text = pending + last;
        assert(shown + text == now);
        if contains(text, marker) {
            lemma_contains_in_front(shown, text, marker);
        }
        lemma_short_tail(text);
        let cut = text.len() - short_tail(text).len();
        assert(text.take(cut) + text.skip(cut) == text);
        assert((shown + text.take(cut)) + text.skip(cut) == now);
        if cut > 0 {
            assert(now.skip(shown.len() + cut - 1) == text.skip(cut - 1));
        } else if shown.len() > 0 {
            let n = shown.len() - 1;
            assert(now.skip(n) == before.skip(n) + last);
            lemma_text_bytes_concat(before.skip(n), last);
            assert(shown + text.take(0) == shown);
        }
    }
}

/// No marker starts in what was shown before it is complete.
proof fn lemma_no_early_marker(before: Seq<char>, last: Seq<char>, shown_length: int, i: int)
    requires
        !contains(before, END_MARKER@),
        0 <= shown_length <= before.len(),
        shown_length > 0 ==> text_bytes(before.skip(shown_length - 1)) > TAIL_BYTES,
        occurs_at(before + last, END_MARKER@, i),
    ensures
        i >= shown_length,
{
    reveal_strlit("[[END_WORKFLOW]]");
    let marker = END_MARKER@;
    let now = before + last;
    assert(marker.len() == 16);
    assert forall|k: int| 0 <= k < marker.len() implies #[trigger] marker[k] <= '\u{7f}' by {}
    if i < shown_length {
        if i + marker.len() <= before.len() {
            assert(before.subrange(i, i + marker.len()) == now.subrange(i, i + marker.len()));
            assert(occurs_at(before, marker, i));
            assert(false);
        }
        let start = before.skip(i);
        assert forall|k: int| 0 <= k < start.len() implies #[trigger] start[k] <= '\u{7f}' by {
            assert(now.subrange(i, i + marker.len())[k] == marker[k]);
            assert(now[i + k] == before[i + k]);
        }
        lemma_ascii_bytes(start);
        lemma_text_bytes_skip(start, shown_length - 1 - i);
        assert(start.skip(shown_length - 1 - i) == before.skip(shown_length - 1));
    }
}

/// Law: no marker is in what is shown at once, forced or not.
pub proof fn law_marker_is_never_shown(pending: Seq<char>, force: bool)
    ensures
        !contains(flushed(pending, force).0, END_MARKER@),
{
    let marker = END_MARKER@;
    let (shown, rest) = flushed(pending, force);
    if contains(pending, marker) {
        let any = choose|i: int| occurs_at(pending, marker, i);
        lemma_first_occurrence(pending, marker, any);
        let first = choose|i: int| first_occurrence(pending, marker, i);
        if contains(shown, marker) {
            let k = choose|k: int| occurs_at(shown, marker, k);
            assert(pending.subrange(k, k + marker.len()) == shown.subrange(k, k + marker.len()));
            assert(occurs_at(pending, marker, k));
            reveal_strlit("[[END_WORKFLOW]]");
            assert(k < first);
        }
    } else {
        lemma_short_tail(pending);
        if contains(shown, marker) {
            lemma_contains_grows(shown, pending.skip(shown.len() as int), marker);
            assert(shown + pending.skip(shown.len() as int) == pending);
        }
    }
}

/// Law: as long as no marker arrived, what was shown and what waits make up the whole text. When a
/// piece completes the first marker, all text before the marker has been shown, nothing of the
/// marker, and nothing waits.
pub proof fn law_text_up_to_the_marker_is_shown(pieces: Seq<Seq<char>>)
    ensures
        !contains(whole(pieces), END_MARKER@) ==> streamed(pieces).0 + streamed(pieces).1 == whole(
            pieces,
        ),
        pieces.len() > 0 && contains(whole(pieces), END_MARKER@) && !contains(
            whole(pieces.drop_last()),
            END_MARKER@,
        ) ==> streamed(pieces) == (text_before(whole(pieces), END_MARKER@), Seq::<char>::empty()),
{
    let marker = END_MARKER@;
    if !contains(whole(pieces), marker) {
        lemma_streamed(pieces);
    } else if pieces.len() > 0 && !contains(whole(pieces.drop_last()), marker) {
        let front = pieces.drop_last();
        let last = pieces.last();
        let before = whole(front);
        let now = whole(pieces);
        lemma_streamed(front);
        let (shown, pending) = streamed(front);
        let text = pending + last;
        assert(shown + text == now);
        assert(before.len() == shown.len() + pending.len());
        let n = shown.len() as int;
        assert forall|i: int| occurs_at(now, marker, i) implies i >= n && occurs_at(
            text,
            marker,
            i - n,
        ) by {
            lemma_no_early_marker(before, last, n, i);
            assert(text.subrange(i - n, i - n + marker.len()) == now.subrange(i, i + marker.len()));
        }
        assert forall|i: int| occurs_at(text, marker, i) implies occurs_at(now, marker, i + n) by {
            assert(text.subrange(i, i + marker.len()) == now.subrange(i + n, i + n + marker.len()));
        }
        let any = choose|i: int| occurs_at(now, marker, i);
        assert(occurs_at(text, marker, any - n));
        lemma_first_occurrence(text, marker, any - n);
        let there = choose|i: int| first_occurrence(text, marker, i);
        assert forall|k: int| 0 <= k < there + n implies !occurs_at(now, marker, k) by {
            if occurs_at(now, marker, k) {
                assert(occurs_at(text, marker, k - n));
            }
        }
        assert(first_occurrence(now, marker, there + n));
        let first = choose|i: int| first_occurrence(now, marker, i);
        assert(first_occurrence(now, marker, first));
        assert(first == there + n);
        assert(now.take(first) == shown + text.take(there));
    }
}

/// A pattern that occurs has a first occurrence.
proof fn lemma_first_occurrence(text: Seq<char>, pattern: Seq<char>, i: int)
    requires
        occurs_at(text, pattern, i),
    ensures
        exists|k: int| first_occurrence(text, pattern, k),
    decreases i,
{
    if exists|k: int| 0 <= k < i && occurs_at(text, pattern, k) {
        let k = choose|k: int| 0 <= k < i && occurs_at(text, pattern, k);
        lemma_first_occurrence(text, pattern, k);
    } else {
        assert(first_occurrence(text, pattern, i));
    }
}

/// Law: a text without a marker has been shown as a whole once it is complete.
pub proof fn law_all_text_is_shown(pieces: Seq<Seq<char>>)
    requires
        !contains(whole(pieces), END_MARKER@),
    ensures
        streamed(pieces).0 + flushed(streamed(pieces).1, true).0 == whole(pieces),
{
    lemma_streamed(pieces);
    let (shown, pending) = streamed(pieces);
    if contains(pending, END_MARKER@) {
        lemma_contains_in_front(shown, pending, END_MARKER@);
    }
}

proof fn lemma_equation_in(contents: Seq<Seq<char>>, shown: Seq<Seq<char>>)
    ensures
        equation_in(contents, shown) matches Some(text) ==> text.len() > 0 && !shown.contains(text),
    decreases contents.len(),
{
    if contents.len() > 0 {
        lemma_equation_in(contents.drop_first(), shown);
    }
}

/// Law: no reaction equation is shown twice. An equation that a tool result has shown was not
/// shown before, and is remembered; none that was shown is forgotten, whatever happens.
pub proof fn law_equations_are_shown_once(flow: Flow, incident: Incident)
    requires
        ascending(flow.equations),
    ensures
        ascending(after(flow, incident).flow.equations),
        forall|text: Seq<char>|
            flow.equations.contains(text) ==> #[trigger] after(
                flow,
                incident,
            ).flow.equations.contains(text),
        incident matches Incident::ToolResult(contents) ==> (equation_in(contents, flow.equations)
            matches Some(text) ==> text.len() > 0 && !flow.equations.contains(text) && after(
            flow,
            incident,
        ).flow.equations.contains(text)),
{
    if let Incident::ToolResult(contents) = incident {
        lemma_equation_in(contents, flow.equations);
        if let Some(text) = equation_in(contents, flow.equations) {
            lemma_with_text(flow.equations, text);
        }
    }
}

/// A filter that holds nothing is in a state that it can be in.
pub proof fn lemma_empty_filter_is_valid(muted: bool)
    ensures
        valid_filter(Seq::empty(), muted),
{
    reveal_strlit("反応式");
}

/// Law: whatever happens, the equations that were shown stay in order, each once, and the filter of
/// lines stays in a state that it can be in.
pub proof fn law_flow_stays_well_formed(flow: Flow, incident: Incident)
    requires
        flow.well_formed(),
    ensures
        after(flow, incident).flow.well_formed(),
{
    law_equations_are_shown_once(flow, incident);
    lemma_empty_filter_is_valid(flow.muted);
    if let Incident::Text(text) = incident {
        law_filter_keeps_its_state(Seq::empty(), flow.held, flow.muted, sanitized(text));
    }
}

/// Law: the sign of thinking is taken away before anything else is printed, and stays away until
/// the next thought.
pub proof fn law_thinking_sign_is_cleared(flow: Flow, incident: Incident)
    requires
        !(incident is Thought),
        !(incident is Other),
    ensures
        !after(flow, incident).flow.thinking,
        clearing(flow.thinking).is_prefix_of(after(flow, incident).output),
{
    let start = clearing(flow.thinking);
    let output = after(flow, incident).output;
    assert(output.take(start.len() as int) == start);
    assert(start.is_prefix_of(output));
}

/// Law: the answer is kept as it arrived, whatever of it is shown, and an answer that is given up
/// does not end the conversation.
pub proof fn law_answer_is_kept(flow: Flow, incident: Incident)
    ensures
        after(flow, incident).flow.answer == flow.answer + (match incident {
            Incident::Text(text) => text,
            _ => Seq::empty(),
        }),
        incident is OutOfTime || incident is Stalled ==> after(flow, incident).end == Some(false),
        after(flow, incident).end is Some <==> incident is OutOfTime || incident is Stalled
            || incident is Ended,
{
    assert(flow.answer + Seq::<char>::empty() == flow.answer);
}

/// What takes away the sign of thinking, where it is shown.
pub open spec fn sign_cleared(flow: Flow) -> Seq<char> {
    if flow.thinking {
        seq!['\r', '\u{1b}', '[', '2', 'K']
    } else {
        Seq::empty()
    }
}

/// Whether `shown` is all of a text, or, where a marker stands in the text, all in front of the
/// first one.
pub open spec fn up_to_the_marker(text: Seq<char>, shown: Seq<char>) -> bool {
    ||| !contains(text, END_MARKER@) && shown == text
    ||| exists|i: int|
        {
            &&& #[trigger] occurs_at(text, END_MARKER@, i)
            &&& forall|k: int| 0 <= k < i ==> !occurs_at(text, END_MARKER@, k)
            &&& shown == text.take(i)
        }
}

/// Whether the texts of a tool result give a new equation at an index: the tool succeeded, and
/// names an equation that was not shown yet.
pub open spec fn gives_equation(
    contents: Seq<Seq<char>>,
    shown: Seq<Seq<char>>,
    k: int,
    equation: Seq<char>,
) -> bool {
    &&& 0 <= k < contents.len()
    &&& flag_in(contents[k], "ok"@) == Some(true)
    &&& word_in(contents[k], "reaction_equation"@) == Some(equation)
    &&& equation.len() > 0
    &&& !shown.contains(equation)
}

proof fn lemma_sign_cleared(flow: Flow)
    ensures
        clearing(flow.thinking) == sign_cleared(flow),
{
    reveal_strlit("\r\x1b[2K");
    assert("\r\x1b[2K"@ == seq!['\r', '\u{1b}', '[', '2', 'K']);
}

proof fn lemma_forced(text: Seq<char>)
    ensures
        up_to_the_marker(text, flushed(text, true).0),
        flushed(text, true).1.len() == 0,
{
    let marker = END_MARKER@;
    if contains(text, marker) {
        let i = choose|i: int| occurs_at(text, marker, i);
        lemma_first_occurrence(text, marker, i);
        let first = choose|i: int| first_occurrence(text, marker, i);
        assert(first_occurrence(text, marker, first));
        assert(occurs_at(text, marker, first));
    }
}

/// The first new equation of a tool result is the one to show.
proof fn lemma_first_new_equation(
    contents: Seq<Seq<char>>,
    shown: Seq<Seq<char>>,
    k: int,
    equation: Seq<char>,
)
    requires
        gives_equation(contents, shown, k, equation),
        forall|j: int, other: Seq<char>|
            0 <= j < k ==> !#[trigger] gives_equation(contents, shown, j, other),
    ensures
        equation_in(contents, shown) == Some(equation),
    decreases contents.len(),
{
    if k > 0 {
        let rest = contents.drop_first();
        assert(rest[k - 1] == contents[k]);
        assert(gives_equation(rest, shown, k - 1, equation));
        assert forall|j: int, other: Seq<char>| 0 <= j < k - 1 implies !#[trigger] gives_equation(
            rest,
            shown,
            j,
            other,
        ) by {
            assert(rest[j] == contents[j + 1]);
            assert(!gives_equation(contents, shown, j + 1, other));
        }
        lemma_first_new_equation(rest, shown, k - 1, equation);
        if let Some(first) = word_in(contents[0], "reaction_equation"@) {
            assert(!gives_equation(contents, shown, 0, first));
        }
    }
}

proof fn lemma_no_new_equation(contents: Seq<Seq<char>>, shown: Seq<Seq<char>>)
    requires
        forall|j: int, other: Seq<char>| !#[trigger] gives_equation(contents, shown, j, other),
    ensures
        equation_in(contents, shown) is None,
    decreases contents.len(),
{
    if contents.len() > 0 {
        let rest = contents.drop_first();
        assert forall|j: int, other: Seq<char>| !#[trigger] gives_equation(
            rest,
            shown,
            j,
            other,
        ) by {
            if 0 <= j < rest.len() {
                assert(rest[j] == contents[j + 1]);
            }
            assert(!gives_equation(contents, shown, j + 1, other));
        }
        lemma_no_new_equation(rest, shown);
        if let Some(first) = word_in(contents[0], "reaction_equation"@) {
            assert(!gives_equation(contents, shown, 0, first));
        }
    }
}

/// Law: whatever a tool result holds, all text that waits is shown, up to the marker, with a line
/// break behind it; nothing waits any more. Then the first new equation that the result gives is
/// shown in a line of its own, if it gives one. All else stays.
pub proof fn law_tool_result_shows_what_waits(
    flow: Flow,
    contents: Seq<Seq<char>>,
    k: int,
    equation: Seq<char>,
)
    ensures
        ({
            let effect = after(flow, Incident::ToolResult(contents));
            &&& effect.end is None
            &&& effect.flow.pending.len() == 0
            &&& effect.flow == (Flow {
                pending: Seq::empty(),
                shown_any: effect.flow.shown_any,
                equations: effect.flow.equations,
                thinking: false,
                ..flow
            })
            &&& (forall|j: int, other: Seq<char>|
                !#[trigger] gives_equation(contents, flow.equations, j, other)) ==> exists|
                shown: Seq<char>,
            |
                {
                    &&& #[trigger] up_to_the_marker(flow.pending, shown)
                    &&& effect.output == sign_cleared(flow) + shown + (if shown.len() > 0 {
                        seq!['\n']
                    } else {
                        Seq::empty()
                    })
                    &&& effect.flow.shown_any == (flow.shown_any || shown.len() > 0)
                    &&& effect.flow.equations == flow.equations
                }
            &&& gives_equation(contents, flow.equations, k, equation) && (forall|
                j: int,
                other: Seq<char>,
            |
                0 <= j < k ==> !#[trigger] gives_equation(contents, flow.equations, j, other))
                ==> exists|shown: Seq<char>|
                {
                    &&& #[trigger] up_to_the_marker(flow.pending, shown)
                    &&& effect.output == sign_cleared(flow) + shown + (if shown.len() > 0 {
                        seq!['\n']
                    } else {
                        Seq::empty()
                    }) + ("反応式: "@ + equation + seq!['\n'])
                    &&& effect.flow.shown_any
                    &&& effect.flow.equations == with_text(flow.equations, equation)
                }
        }),
{
    reveal_strlit("\n");
    assert("\n"@ == seq!['\n']);
    lemma_sign_cleared(flow);
    lemma_forced(flow.pending);
    let effect = after(flow, Incident::ToolResult(contents));
    let shown = flushed(flow.pending, true).0;
    assert(effect.flow.pending =~= Seq::empty());
    if forall|j: int, other: Seq<char>|
        !#[trigger] gives_equation(contents, flow.equations, j, other) {
        lemma_no_new_equation(contents, flow.equations);
        assert(effect.output == sign_cleared(flow) + shown + break_after(shown));
        assert(up_to_the_marker(flow.pending, shown));
    }
    if gives_equation(contents, flow.equations, k, equation) && forall|j: int, other: Seq<char>|
        0 <= j < k ==> !#[trigger] gives_equation(contents, flow.equations, j, other) {
        lemma_first_new_equation(contents, flow.equations, k, equation);
        assert(up_to_the_marker(flow.pending, shown));
    }
}

/// What the filter makes of a piece of the answer, once the marks are taken out.
pub open spec fn passed_on(flow: Flow, text: Seq<char>) -> Filtered {
    let clean = without(without(without(text, "**"@), "__"@), "```"@);
    if flow.equations.len() == 0 {
        Filtered { shown: clean, held: flow.held, muted: flow.muted }
    } else {
        filter_text(filter_from(flow.held, flow.muted), clean)
    }
}

/// The line that was held back, unless it repeats an equation.
pub open spec fn line_held_back(flow: Flow) -> Seq<char> {
    if contains(flow.held, "反応式"@) {
        Seq::empty()
    } else {
        flow.held
    }
}

/// Law: a piece of the answer is cleaned, filtered by lines once an equation was shown, and put
/// behind what waits. Of that, all up to the marker is shown where there is one, and nothing waits
/// any more; else what is shown and what goes on waiting make up the whole, and no more waits than
/// may become a marker.
pub proof fn law_text_is_shown_or_waits(flow: Flow, text: Seq<char>)
    ensures
        ({
            let effect = after(flow, Incident::Text(text));
            let passed = passed_on(flow, text);
            let waiting = flow.pending + passed.shown;
            let rest = effect.flow.pending;
            &&& effect.end is None
            &&& effect.flow == (Flow {
                answer: flow.answer + text,
                pending: rest,
                shown_any: flow.shown_any || effect.output.len() > sign_cleared(flow).len(),
                thinking: false,
                muted: passed.muted,
                held: passed.held,
                ..flow
            })
            &&& contains(waiting, END_MARKER@) ==> rest.len() == 0 && exists|shown: Seq<char>|
                #[trigger] up_to_the_marker(waiting, shown) && effect.output == sign_cleared(flow)
                    + shown
            &&& !contains(waiting, END_MARKER@) ==> {
                &&& effect.output + rest == sign_cleared(flow) + waiting
                &&& rest.len() <= waiting.len()
                &&& text_bytes(rest) <= 15
                &&& rest.len() < waiting.len() ==> text_bytes(
                    waiting.skip(waiting.len() - rest.len() - 1),
                ) > 15
            }
        }),
{
    lemma_sign_cleared(flow);
    let effect = after(flow, Incident::Text(text));
    let passed = passed_on(flow, text);
    assert(passed == filter_step(
        sanitized(text),
        flow.equations.len() > 0,
        flow.held,
        flow.muted,
    ));
    let waiting = flow.pending + passed.shown;
    let (shown, rest) = flushed(waiting, false);
    assert(effect.output == sign_cleared(flow) + shown);
    if contains(waiting, END_MARKER@) {
        lemma_forced(waiting);
        assert(up_to_the_marker(waiting, shown));
    } else {
        lemma_short_tail(waiting);
        lemma_short_tail_is_short(waiting);
        let cut = waiting.len() - short_tail(waiting).len();
        assert(waiting.take(cut) + waiting.skip(cut) == waiting);
        assert(effect.output + rest == sign_cleared(flow) + (shown + rest));
    }
}

proof fn lemma_short_tail_is_short(text: Seq<char>)
    ensures
        text_bytes(short_tail(text)) <= TAIL_BYTES,
    decreases text.len(),
{
    if text_bytes(text) > TAIL_BYTES && text.len() > 0 {
        lemma_short_tail_is_short(text.drop_first());
    }
}

/// Law: at the end of an answer all text that waits is shown, up to the marker, and with it the
/// line that was held back, unless it repeats an equation. A line break follows if anything of the
/// answer was shown, and a word of farewell if nothing was and the conversation ends. The
/// conversation ends if the whole answer had a marker, or if one waits.
pub proof fn law_end_shows_what_waits(flow: Flow)
    ensures
        ({
            let effect = after(flow, Incident::Ended);
            let last = line_held_back(flow);
            let ends = flow.should_end || contains(flow.pending, END_MARKER@);
            &&& effect.end == Some(ends)
            &&& effect.flow.should_end == ends
            &&& effect.flow.pending.len() == 0
            &&& effect.flow.held.len() == 0
            &&& exists|shown: Seq<char>|
                {
                    &&& #[trigger] up_to_the_marker(flow.pending + last, shown)
                    &&& effect.flow.shown_any == (flow.shown_any || shown.len() > 0)
                    &&& effect.output == sign_cleared(flow) + shown + (if flow.shown_any
                        || shown.len() > 0 {
                        seq!['\n']
                    } else if ends {
                        "終了します。"@ + seq!['\n']
                    } else {
                        Seq::empty()
                    })
                }
        }),
{
    reveal_strlit("\n");
    reveal_strlit("終了します。\n");
    reveal_strlit("終了します。");
    assert("\n"@ == seq!['\n']);
    assert("終了します。\n"@ == "終了します。"@ + seq!['\n']);
    lemma_sign_cleared(flow);
    let last = line_held_back(flow);
    lemma_forced(flow.pending + last);
    let shown = flushed(flow.pending + last, true).0;
    assert(up_to_the_marker(flow.pending + last, shown));
}

/// Law: a thought changes nothing but the sign of thinking, which shows how many characters of
/// thought there were so far. The whole answer decides whether the conversation ends, by its
/// marker. Giving up says why, and changes nothing but the sign of thinking.
pub proof fn law_other_incidents(flow: Flow, pieces: Seq<Seq<char>>, text: Seq<char>)
    ensures
        after(flow, Incident::Thought(pieces)).flow == (Flow {
            thinking: true,
            thought: flow.thought + whole(pieces).len(),
            ..flow
        }),
        after(flow, Incident::Thought(pieces)).output == "\r\x1b[2K\x1b[5mThinking... ("@ + decimal(
            flow.thought + whole(pieces).len(),
        ) + " chars)\x1b[0m"@,
        after(flow, Incident::FinalResponse(text)).flow == (Flow {
            thinking: false,
            should_end: contains(text, END_MARKER@),
            ..flow
        }),
        after(flow, Incident::FinalResponse(text)).output == sign_cleared(flow),
        after(flow, Incident::OutOfTime).flow == (Flow { thinking: false, ..flow }),
        after(flow, Incident::OutOfTime).output == sign_cleared(flow)
            + "応答が長時間完了しなかったため中断しました。もう一度、化学式のリストを具体的に入力してください。\n"@,
        after(flow, Incident::Stalled).flow == (Flow { thinking: false, ..flow }),
        after(flow, Incident::Stalled).output == sign_cleared(flow)
            + "応答が停止したため中断しました。もう一度、化学式のリストを具体的に入力してください。\n"@,
        after(flow, Incident::Other).flow == flow,
        after(flow, Incident::Other).output.len() == 0,
{
    lemma_sign_cleared(flow);
    lemma_whole_length(pieces);
}

proof fn lemma_whole_length(pieces: Seq<Seq<char>>)
    ensures
        total_length(pieces) == whole(pieces).len(),
    decreases pieces.len(),
{
    if pieces.len() > 0 {
        lemma_whole_length(pieces.drop_last());
    }
}

/// The state after a sequence of incidents.
pub open spec fn flow_after(flow: Flow, incidents: Seq<Incident>) -> Flow
    decreases incidents.len(),
{
    if incidents.len() == 0 {
        flow
    } else {
        after(flow_after(flow, incidents.drop_last()), incidents.last()).flow
    }
}

/// What is printed on an incident as text of the answer: without the clearing of the sign of
/// thinking, without the line of an equation, and without the line break before it.
pub open spec fn answer_part(flow: Flow, incident: Incident) -> Seq<char> {
    let printed = after(flow, incident).output.skip(sign_cleared(flow).len() as int);
    match incident {
        Incident::Text(_) => printed,
        Incident::ToolResult(contents) => {
            let lines = match equation_in(contents, flow.equations) {
                Some(equation) => printed.take(
                    printed.len() - "反応式: "@.len() - equation.len() - 1,
                ),
                None => printed,
            };
            if lines.len() > 0 {
                lines.drop_last()
            } else {
                lines
            }
        },
        _ => Seq::empty(),
    }
}

/// What is printed as text of the answer over a sequence of incidents.
pub open spec fn answer_shown(flow: Flow, incidents: Seq<Incident>) -> Seq<char>
    decreases incidents.len(),
{
    if incidents.len() == 0 {
        Seq::empty()
    } else {
        answer_shown(flow, incidents.drop_last()) + answer_part(
            flow_after(flow, incidents.drop_last()),
            incidents.last(),
        )
    }
}

/// The pieces of the answer that arrive in a sequence of incidents, put together once the marks
/// are taken out of each.
pub open spec fn clean_answer(incidents: Seq<Incident>) -> Seq<char>
    decreases incidents.len(),
{
    if incidents.len() == 0 {
        Seq::empty()
    } else {
        clean_answer(incidents.drop_last()) + (match incidents.last() {
            Incident::Text(text) => without(without(without(text, "**"@), "__"@), "```"@),
            _ => Seq::empty(),
        })
    }
}

/// What the filter of lines makes of an answer: it works once an equation was shown.
pub open spec fn filtered_answer(flow: Flow, incidents: Seq<Incident>) -> Filtered {
    if flow.equations.len() == 0 {
        Filtered { shown: clean_answer(incidents), held: flow.held, muted: flow.muted }
    } else {
        filter_text(filter_from(flow.held, flow.muted), clean_answer(incidents))
    }
}

proof fn lemma_run_stays_well_formed(flow: Flow, incidents: Seq<Incident>)
    requires
        flow.well_formed(),
    ensures
        flow_after(flow, incidents).well_formed(),
        flow.equations.len() > 0 ==> flow_after(flow, incidents).equations.len() > 0,
    decreases incidents.len(),
{
    if incidents.len() > 0 {
        let front = incidents.drop_last();
        lemma_run_stays_well_formed(flow, front);
        let before = flow_after(flow, front);
        law_flow_stays_well_formed(before, incidents.last());
        if before.equations.len() > 0 {
            lemma_equations_stay(before, incidents.last());
        }
    }
}

proof fn lemma_equations_stay(flow: Flow, incident: Incident)
    requires
        flow.well_formed(),
        flow.equations.len() > 0,
    ensures
        after(flow, incident).flow.equations.len() > 0,
{
    law_equations_are_shown_once(flow, incident);
    let text = flow.equations[0];
    assert(flow.equations.contains(text));
    assert(after(flow, incident).flow.equations.contains(text));
}

/// What a tool result prints as text of the answer is all that waits, where no marker waits.
proof fn lemma_tool_result_part(flow: Flow, contents: Seq<Seq<char>>)
    requires
        !contains(flow.pending, END_MARKER@),
    ensures
        answer_part(flow, Incident::ToolResult(contents)) == flow.pending,
        after(flow, Incident::ToolResult(contents)).flow.pending == Seq::<char>::empty(),
{
    lemma_sign_cleared(flow);
    reveal_strlit("\n");
    let effect = after(flow, Incident::ToolResult(contents));
    let sign = sign_cleared(flow);
    let tail = equation_line(equation_in(contents, flow.equations));
    let lines = flow.pending + break_after(flow.pending);
    assert(effect.output == sign + flow.pending + break_after(flow.pending) + tail);
    assert(effect.output.skip(sign.len() as int) == lines + tail);
    assert((lines + tail).take(lines.len() as int) == lines);
    if let Some(equation) = equation_in(contents, flow.equations) {
        assert(tail.len() == "反応式: "@.len() + equation.len() + 1);
    } else {
        assert(lines + tail == lines);
    }
    if flow.pending.len() > 0 {
        assert(lines.drop_last() == flow.pending);
    } else {
        assert(lines =~= Seq::<char>::empty());
        assert(flow.pending =~= Seq::<char>::empty());
    }
}

/// What a piece of the answer prints, and what then waits, is what waited and what the filter
/// passes on, where no marker is in it.
proof fn lemma_text_part(flow: Flow, text: Seq<char>)
    requires
        !contains(flow.pending + passed_on(flow, text).shown, END_MARKER@),
    ensures
        answer_part(flow, Incident::Text(text)) + after(flow, Incident::Text(text)).flow.pending
            == flow.pending + passed_on(flow, text).shown,
{
    law_text_is_shown_or_waits(flow, text);
    let effect = after(flow, Incident::Text(text));
    let sign = sign_cleared(flow);
    let waiting = flow.pending + passed_on(flow, text).shown;
    let rest = effect.flow.pending;
    let both = effect.output + rest;
    assert(both == sign + waiting);
    assert(both.len() == effect.output.len() + rest.len());
    assert(effect.output.len() >= sign.len());
    assert(effect.output.skip(sign.len() as int) + rest == both.skip(sign.len() as int));
    assert(both.skip(sign.len() as int) == waiting);
}

/// Law: nothing of an answer is lost, and nothing is added, whatever happens between its pieces:
/// thoughts, tool results, and anything else. What was printed as text of the answer and what still
/// waits make up what waited at first and the answer, cleaned and, once an equation was shown,
/// filtered by lines; the end of the answer shows what waits and the line that was held back. This
/// is so from any state to the next new equation, and from any state in which an equation was shown
/// on, as long as no marker arrives.
pub proof fn law_nothing_of_an_answer_is_lost(flow: Flow, incidents: Seq<Incident>)
    requires
        flow.well_formed(),
        forall|i: int| 0 <= i < incidents.len() ==> !(#[trigger] incidents[i] is Ended),
        flow.equations.len() > 0 || flow_after(flow, incidents).equations.len() == 0,
        !contains(flow.pending + filtered_answer(flow, incidents).shown, END_MARKER@),
    ensures
        ({
            let last = flow_after(flow, incidents);
            let all = flow.pending + filtered_answer(flow, incidents).shown;
            let held = line_held_back(last);
            let end = after(last, Incident::Ended);
            &&& answer_shown(flow, incidents) + last.pending == all
            &&& last.held == filtered_answer(flow, incidents).held
            &&& last.muted == filtered_answer(flow, incidents).muted
            &&& !contains(all + held, END_MARKER@) ==> exists|shown: Seq<char>|
                {
                    &&& #[trigger] up_to_the_marker(last.pending + held, shown)
                    &&& answer_shown(flow, incidents) + shown == all + held
                    &&& end.output.len() >= sign_cleared(last).len() + shown.len()
                    &&& end.output.take((sign_cleared(last).len() + shown.len()) as int)
                        == sign_cleared(last) + shown
                }
        }),
{
    lemma_nothing_is_lost(flow, incidents);
    let last = flow_after(flow, incidents);
    let all = flow.pending + filtered_answer(flow, incidents).shown;
    let held = line_held_back(last);
    let printed = answer_shown(flow, incidents);
    law_end_shows_what_waits(last);
    if !contains(all + held, END_MARKER@) {
        assert(printed + (last.pending + held) == all + held);
        if contains(last.pending + held, END_MARKER@) {
            lemma_contains_in_front(printed, last.pending + held, END_MARKER@);
        }
        let shown = last.pending + held;
        assert(up_to_the_marker(shown, shown));
        let output = after(last, Incident::Ended).output;
        let other = choose|other: Seq<char>|
            {
                &&& #[trigger] up_to_the_marker(last.pending + held, other)
                &&& output == sign_cleared(last) + other + (if last.shown_any || other.len() > 0 {
                    seq!['\n']
                } else if last.should_end || contains(last.pending, END_MARKER@) {
                    "終了します。"@ + seq!['\n']
                } else {
                    Seq::empty()
                })
            };
        assert(other == shown);
        assert(output.take((sign_cleared(last).len() + shown.len()) as int) == sign_cleared(last)
            + shown);
    }
}

/// What the filter passes on upon an incident.
spec fn passed_upon(flow: Flow, incident: Incident) -> Filtered {
    match incident {
        Incident::Text(text) => passed_on(flow, text),
        _ => Filtered { shown: Seq::empty(), held: flow.held, muted: flow.muted },
    }
}

/// One incident loses nothing.
proof fn lemma_incident_loses_nothing(flow: Flow, incident: Incident)
    requires
        !(incident is Ended),
        !contains(flow.pending + passed_upon(flow, incident).shown, END_MARKER@),
    ensures
        answer_part(flow, incident) + after(flow, incident).flow.pending == flow.pending
            + passed_upon(flow, incident).shown,
        after(flow, incident).flow.held == passed_upon(flow, incident).held,
        after(flow, incident).flow.muted == passed_upon(flow, incident).muted,
{
    let nothing = Seq::<char>::empty();
    match incident {
        Incident::Text(text) => {
            lemma_text_part(flow, text);
            law_text_is_shown_or_waits(flow, text);
        },
        Incident::ToolResult(contents) => {
            assert(flow.pending + nothing == flow.pending);
            lemma_tool_result_part(flow, contents);
        },
        _ => {
            assert(nothing + flow.pending == flow.pending + nothing);
        },
    }
}

/// What the filter makes of an answer grows by what it passes on upon one more incident.
proof fn lemma_filtered_answer_grows(
    flow: Flow,
    incidents: Seq<Incident>,
    here: Flow,
)
    requires
        incidents.len() > 0,
        here.held == filtered_answer(flow, incidents.drop_last()).held,
        here.muted == filtered_answer(flow, incidents.drop_last()).muted,
        flow.equations.len() == 0 <==> here.equations.len() == 0,
    ensures
        ({
            let before = filtered_answer(flow, incidents.drop_last());
            let more = passed_upon(here, incidents.last());
            filtered_answer(flow, incidents) == (Filtered {
                shown: before.shown + more.shown,
                held: more.held,
                muted: more.muted,
            })
        }),
{
    let front = incidents.drop_last();
    let before = filtered_answer(flow, front);
    let clean = match incidents.last() {
        Incident::Text(text) => without(without(without(text, "**"@), "__"@), "```"@),
        _ => Seq::empty(),
    };
    assert(clean_answer(incidents) == clean_answer(front) + clean);
    if flow.equations.len() > 0 {
        law_filter_in_pieces(filter_from(flow.held, flow.muted), clean_answer(front), clean);
        lemma_filter_shown(before.shown, before.held, before.muted, clean);
    }
    if !(incidents.last() is Text) {
        assert(before.shown + Seq::<char>::empty() == before.shown);
    }
}

/// Joining a text to one that went before.
proof fn lemma_joined(
    start: Seq<char>,
    shown: Seq<char>,
    more: Seq<char>,
    printed: Seq<char>,
    waiting: Seq<char>,
    part: Seq<char>,
    rest: Seq<char>,
)
    requires
        printed + waiting == start + shown,
        part + rest == waiting + more,
    ensures
        (printed + part) + rest == start + (shown + more),
        printed + (waiting + more) == start + (shown + more),
{
    assert((printed + part) + rest == printed + (part + rest));
    assert(printed + (waiting + more) == (printed + waiting) + more);
    assert((start + shown) + more == start + (shown + more));
}

proof fn lemma_nothing_is_lost(flow: Flow, incidents: Seq<Incident>)
    requires
        flow.well_formed(),
        forall|i: int| 0 <= i < incidents.len() ==> !(#[trigger] incidents[i] is Ended),
        flow.equations.len() > 0 || flow_after(flow, incidents).equations.len() == 0,
        !contains(flow.pending + filtered_answer(flow, incidents).shown, END_MARKER@),
    ensures
        answer_shown(flow, incidents) + flow_after(flow, incidents).pending == flow.pending
            + filtered_answer(flow, incidents).shown,
        flow_after(flow, incidents).held == filtered_answer(flow, incidents).held,
        flow_after(flow, incidents).muted == filtered_answer(flow, incidents).muted,
        flow.equations.len() == 0 <==> flow_after(flow, incidents).equations.len() == 0,
    decreases incidents.len(),
{
    let marker = END_MARKER@;
    let now = filtered_answer(flow, incidents);
    if incidents.len() == 0 {
        assert(now.shown == Seq::<char>::empty());
        assert(flow.pending + now.shown == Seq::<char>::empty() + flow.pending);
    } else {
        let front = incidents.drop_last();
        let incident = incidents.last();
        let here = flow_after(flow, front);
        let before = filtered_answer(flow, front);
        assert(incidents[incidents.len() - 1] == incident);
        assert forall|i: int| 0 <= i < front.len() implies !(#[trigger] front[i] is Ended) by {
            assert(front[i] == incidents[i]);
        }
        lemma_run_stays_well_formed(flow, front);
        lemma_run_stays_well_formed(flow, incidents);
        if here.equations.len() > 0 {
            lemma_equations_stay(here, incident);
        }
        if contains(flow.pending + before.shown, marker) {
            lemma_front_shown(flow, incidents);
            let more = now.shown.skip(before.shown.len() as int);
            lemma_contains_grows(flow.pending + before.shown, more, marker);
            assert((flow.pending + before.shown) + more == flow.pending + now.shown);
        }
        lemma_nothing_is_lost(flow, front);
        lemma_filtered_answer_grows(flow, incidents, here);
        let more = passed_upon(here, incident).shown;
        let printed = answer_shown(flow, front);
        assert(printed + (here.pending + more) == (printed + here.pending) + more);
        assert((flow.pending + before.shown) + more == flow.pending + now.shown);
        if contains(here.pending + more, marker) {
            lemma_contains_in_front(printed, here.pending + more, marker);
        }
        lemma_incident_loses_nothing(here, incident);
        lemma_joined(
            flow.pending,
            before.shown,
            more,
            printed,
            here.pending,
            answer_part(here, incident),
            after(here, incident).flow.pending,
        );
    }
}

/// What the filter passes on of the front of an answer starts what it passes on of the whole.
proof fn lemma_front_shown(flow: Flow, incidents: Seq<Incident>)
    requires
        incidents.len() > 0,
    ensures
        ({
            let before = filtered_answer(flow, incidents.drop_last()).shown;
            let now = filtered_answer(flow, incidents).shown;
            before.len() <= now.len() && now == before + now.skip(before.len() as int)
        }),
{
    let before = filtered_answer(flow, incidents.drop_last());
    let here = Flow { held: before.held, muted: before.muted, ..flow };
    lemma_filtered_answer_grows(flow, incidents, here);
}

/// Law: before anything arrives, nothing waits, nothing is held back, nothing was shown, and nothing
/// is settled about the end.
pub proof fn law_nothing_at_first()
    ensures
        fresh_flow().answer.len() == 0,
        fresh_flow().pending.len() == 0,
        !fresh_flow().should_end,
        !fresh_flow().shown_any,
        fresh_flow().equations.len() == 0,
        !fresh_flow().thinking,
        fresh_flow().thought == 0,
        !fresh_flow().muted,
        fresh_flow().held.len() == 0,
{
}

/// Law: a text takes as many bytes as its encoding in UTF-8 has.
pub proof fn law_bytes_are_those_of_utf8(text: Seq<char>)
    ensures
        text_bytes(text) == encode_utf8(text).len(),
    decreases text.len(),
{
    if text.len() > 0 {
        lemma_char_bytes(text[0]);
        law_bytes_are_those_of_utf8(text.drop_first());
    }
}

proof fn lemma_char_bytes(c: char)
    ensures
        char_bytes(c) == encode_scalar(c as u32).len(),
{
    char_is_scalar(c);
    assert(c as u32 as int == c as int);
}

} // verus!
