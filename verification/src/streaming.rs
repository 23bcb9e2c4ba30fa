//! An answer that arrives piece by piece, and what of it is shown when.

use vstd::prelude::*;

use crate::json::{flag_in, read_flag, read_word, word_in};
use crate::prompt::END_MARKER;
use crate::streaming_laws::{law_filter_keeps_its_state, law_flow_stays_well_formed, lemma_empty_filter_is_valid, valid_filter};
use crate::text::{append_decimal, ascending, chars_of, contains, decimal, find_chars, has_pattern, insert_text, is_text, occurs_at, part, remove_pattern, string_of, text_in, texts, with_text, without};

verus! {

/// How many seconds the next piece of an answer may take.
pub const STREAM_CHUNK_TIMEOUT_SECS: u64 = 90;

/// How many seconds a whole answer may take.
pub const STREAM_TOTAL_TIMEOUT_SECS: u64 = 240;

/// One byte less than the end marker takes. No longer end of a text can be the start of a marker
/// that is still to be completed.
pub const TAIL_BYTES: usize = 15;

/// A text without the marks of emphasis and of code.
pub open spec fn sanitized(text: Seq<char>) -> Seq<char> {
    without(without(without(text, "**"@), "__"@), "```"@)
}

/// Takes the marks of emphasis and of code out of a text.
pub fn sanitize_assistant_text(text: &str) -> (rest: String)
    ensures
        rest@ == sanitized(text@),
{
    proof {
        reveal_strlit("**");
        reveal_strlit("__");
        reveal_strlit("```");
    }
    let plain: Vec<char> = remove_pattern(&chars_of(text), "**");
    let plainer: Vec<char> = remove_pattern(&plain, "__");
    string_of(&remove_pattern(&plainer, "```"))
}

/// The state of a filter that passes a text on line by line, without the lines that repeat a
/// reaction equation.
pub struct Filtered {
    /// What is passed on.
    pub shown: Seq<char>,
    /// The start of a line that may still turn out to repeat an equation.
    pub held: Seq<char>,
    /// Whether the rest of the line is dropped.
    pub muted: bool,
}

/// The filter after one more character.
pub open spec fn filter_char(state: Filtered, c: char) -> Filtered {
    if state.muted {
        Filtered { muted: c != '\n', ..state }
    } else if contains(state.held.push(c), "反応式"@) {
        Filtered { held: Seq::empty(), muted: c != '\n', ..state }
    } else if c == '\n' {
        Filtered { shown: state.shown + state.held.push(c), held: Seq::empty(), ..state }
    } else {
        Filtered { held: state.held.push(c), ..state }
    }
}

/// The filter after a further text.
pub open spec fn filter_text(state: Filtered, text: Seq<char>) -> Filtered
    decreases text.len(),
{
    if text.len() == 0 {
        state
    } else {
        filter_char(filter_text(state, text.drop_last()), text.last())
    }
}

/// The filter with nothing passed on yet.
pub open spec fn filter_from(held: Seq<char>, muted: bool) -> Filtered {
    Filtered { shown: Seq::empty(), held, muted }
}

/// The filter after a further text; it works only once an equation was shown.
pub open spec fn filter_step(
    text: Seq<char>,
    equation_was_shown: bool,
    held: Seq<char>,
    muted: bool,
) -> Filtered {
    if equation_was_shown {
        filter_text(filter_from(held, muted), text)
    } else {
        Filtered { shown: text, held, muted }
    }
}

/// Passes a text on without the lines that repeat a reaction equation.
pub fn filter_duplicate_reaction_line(
    text: &str,
    reaction_was_printed_by_tool: bool,
    suppress_duplicate_reaction_line: &mut bool,
    duplicate_reaction_line_buffer: &mut String,
) -> (output: String)
    ensures
        (Filtered {
            shown: output@,
            held: final(duplicate_reaction_line_buffer)@,
            muted: *final(suppress_duplicate_reaction_line),
        }) == filter_step(
            text@,
            reaction_was_printed_by_tool,
            old(duplicate_reaction_line_buffer)@,
            *old(suppress_duplicate_reaction_line),
        ),
        valid_filter(
            old(duplicate_reaction_line_buffer)@,
            *old(suppress_duplicate_reaction_line),
        ) ==> valid_filter(
            final(duplicate_reaction_line_buffer)@,
            *final(suppress_duplicate_reaction_line),
        ),
{
    if !reaction_was_printed_by_tool {
        return text.to_string();
    }
    let ghost start = filter_from(
        duplicate_reaction_line_buffer@,
        *suppress_duplicate_reaction_line,
    );
    let mut output = String::new();
    let chars: Vec<char> = chars_of(text);
    let mut held: Vec<char> = chars_of(duplicate_reaction_line_buffer.as_str());
    let mut muted: bool = *suppress_duplicate_reaction_line;
    assert(filter_text(start, chars@.take(0)) == start);
    for i in 0..chars.len()
        invariant
            (Filtered { shown: output@, held: held@, muted }) == filter_text(
                start,
                chars@.take(i as int),
            ),
    {
        let c: char = chars[i];
        assert(chars@.take(i + 1).drop_last() == chars@.take(i as int));
        if muted {
            muted = c != '\n';
        } else {
            held.push(c);
            if has_pattern(&held, "反応式") {
                muted = c != '\n';
                held = Vec::new();
            } else if c == '\n' {
                output.append(string_of(&held).as_str());
                held = Vec::new();
            }
        }
    }
    assert(chars@.take(chars@.len() as int) == chars@);
    proof {
        if valid_filter(start.held, start.muted) {
            law_filter_keeps_its_state(start.shown, start.held, start.muted, text@);
        }
    }
    *suppress_duplicate_reaction_line = muted;
    *duplicate_reaction_line_buffer = string_of(&held);
    output
}

/// What is left to pass on of a line that does not end.
pub open spec fn last_line(held: Seq<char>) -> Seq<char> {
    if contains(held, "反応式"@) {
        Seq::empty()
    } else {
        held
    }
}

/// Passes on what is left of a line that does not end.
pub fn flush_duplicate_reaction_line_buffer(duplicate_reaction_line_buffer: &mut String) -> (rest:
    String)
    ensures
        rest@ == last_line(old(duplicate_reaction_line_buffer)@),
        final(duplicate_reaction_line_buffer)@ == Seq::<char>::empty(),
{
    let held: Vec<char> = chars_of(duplicate_reaction_line_buffer.as_str());
    *duplicate_reaction_line_buffer = String::new();
    if has_pattern(&held, "反応式") {
        String::new()
    } else {
        string_of(&held)
    }
}

/// How many characters some texts have together.
pub open spec fn total_length(pieces: Seq<Seq<char>>) -> nat
    decreases pieces.len(),
{
    if pieces.len() == 0 {
        0
    } else {
        total_length(pieces.drop_last()) + pieces.last().len()
    }
}

proof fn lemma_total_length_grows(pieces: Seq<Seq<char>>, i: int)
    requires
        0 <= i <= pieces.len(),
    ensures
        total_length(pieces.take(i)) <= total_length(pieces),
    decreases pieces.len() - i,
{
    if i < pieces.len() {
        lemma_total_length_grows(pieces, i + 1);
        assert(pieces.take(i + 1).drop_last() == pieces.take(i));
    } else {
        assert(pieces.take(i) == pieces);
    }
}

/// How many characters a thought has, piece by piece.
pub fn reasoning_text_len(content: &Vec<String>) -> (length: usize)
    requires
        total_length(texts(content@)) <= usize::MAX,
    ensures
        length == total_length(texts(content@)),
{
    let ghost all = texts(content@);
    let mut length: usize = 0;
    for i in 0..content.len()
        invariant
            all == texts(content@),
            total_length(all) <= usize::MAX,
            length == total_length(all.take(i as int)),
    {
        let chars: Vec<char> = chars_of(content[i].as_str());
        proof {
            lemma_total_length_grows(all, i + 1);
            assert(all.take(i + 1).drop_last() == all.take(i as int));
            assert(all.take(i + 1).last() == content@[i as int]@);
        }
        length += chars.len();
    }
    assert(all.take(all.len() as int) == all);
    length
}

/// What shows that the model is thinking.
pub open spec fn thinking_words(count: nat) -> Seq<char> {
    "\r\x1b[2K\x1b[5mThinking... ("@ + decimal(count) + " chars)\x1b[0m"@
}

/// Shows that the model is thinking: returns what to print.
pub fn update_thinking_indicator(
    chunk_len: usize,
    thinking_char_count: &mut usize,
    showing_thinking: &mut bool,
) -> (output: String)
    requires
        *old(thinking_char_count) + chunk_len <= usize::MAX,
    ensures
        *final(thinking_char_count) == *old(thinking_char_count) + chunk_len,
        *final(showing_thinking),
        output@ == thinking_words((*old(thinking_char_count) + chunk_len) as nat),
{
    *thinking_char_count = *thinking_char_count + chunk_len;
    *showing_thinking = true;
    let mut output: String = "\r\x1b[2K\x1b[5mThinking... (".to_string();
    append_decimal(&mut output, *thinking_char_count as u64);
    output.append(" chars)\x1b[0m");
    output
}

/// What takes away the sign that the model is thinking.
pub open spec fn clearing(showing: bool) -> Seq<char> {
    if showing {
        "\r\x1b[2K"@
    } else {
        Seq::empty()
    }
}

/// Takes away the sign that the model is thinking: returns what to print.
pub fn clear_thinking_indicator(showing_thinking: &mut bool) -> (output: String)
    ensures
        !*final(showing_thinking),
        output@ == clearing(*old(showing_thinking)),
{
    if *showing_thinking {
        *showing_thinking = false;
        "\r\x1b[2K".to_string()
    } else {
        String::new()
    }
}

/// The equation to show for what the result of a tool gives: it is shown where the tool
/// succeeded, and only once.
pub open spec fn new_equation(
    ok: Option<bool>,
    equation: Option<Seq<char>>,
    shown: Seq<Seq<char>>,
) -> Option<Seq<char>> {
    match equation {
        Some(text) => if ok == Some(true) && text.len() > 0 && !shown.contains(text) {
            Some(text)
        } else {
            None
        },
        None => None,
    }
}

/// The equations that were shown, with one more.
pub open spec fn with_equation(shown: Seq<Seq<char>>, equation: Option<Seq<char>>) -> Seq<
    Seq<char>,
> {
    match equation {
        Some(text) => with_text(shown, text),
        None => shown,
    }
}

fn was_shown(shown: &Vec<String>, text: &str) -> (r: bool)
    ensures
        r == texts(shown@).contains(text@),
{
    let ghost all = texts(shown@);
    let chars: Vec<char> = chars_of(text);
    for i in 0..shown.len()
        invariant
            all == texts(shown@),
            chars@ == text@,
            forall|k: int| 0 <= k < i ==> #[trigger] all[k] != text@,
    {
        assert(all[i as int] == shown@[i as int]@);
        if is_text(&chars, shown[i].as_str()) {
            return true;
        }
    }
    false
}

/// Decides which equation to show for what the result of a tool gives.
pub fn take_equation(
    ok: Option<bool>,
    equation: Option<String>,
    printed_reaction_equations: &mut Vec<String>,
) -> (shown: Option<String>)
    ensures
        text_in(shown) == new_equation(
            ok,
            text_in(equation),
            texts(old(printed_reaction_equations)@),
        ),
        texts(final(printed_reaction_equations)@) == with_equation(
            texts(old(printed_reaction_equations)@),
            text_in(shown),
        ),
{
    let text: String = match equation {
        None => {
            return None;
        },
        Some(text) => text,
    };
    let succeeded: bool = match ok {
        Some(flag) => flag,
        None => false,
    };
    if succeeded && chars_of(text.as_str()).len() > 0 && !was_shown(
        printed_reaction_equations,
        text.as_str(),
    ) {
        insert_text(printed_reaction_equations, text.as_str());
        Some(text)
    } else {
        None
    }
}

/// The equation to show for the texts of the result of a tool: that of the first which gives one.
pub open spec fn equation_in(contents: Seq<Seq<char>>, shown: Seq<Seq<char>>) -> Option<Seq<char>>
    decreases contents.len(),
{
    if contents.len() == 0 {
        None
    } else {
        match new_equation(
            flag_in(contents[0], "ok"@),
            word_in(contents[0], "reaction_equation"@),
            shown,
        ) {
            Some(text) => Some(text),
            None => equation_in(contents.drop_first(), shown),
        }
    }
}

/// Finds the equation to show for the texts of the result of a tool.
pub fn reaction_equation_from_tool_result(
    contents: &Vec<String>,
    printed_reaction_equations: &mut Vec<String>,
) -> (shown: Option<String>)
    ensures
        text_in(shown) == equation_in(
            texts(contents@),
            texts(old(printed_reaction_equations)@),
        ),
        texts(final(printed_reaction_equations)@) == with_equation(
            texts(old(printed_reaction_equations)@),
            text_in(shown),
        ),
{
    let ghost all = texts(contents@);
    let ghost before = texts(printed_reaction_equations@);
    assert(all.skip(0) == all);
    for i in 0..contents.len()
        invariant
            all == texts(contents@),
            before == texts(old(printed_reaction_equations)@),
            texts(printed_reaction_equations@) == before,
            equation_in(all, before) == equation_in(all.skip(i as int), before),
    {
        assert(all.skip(i as int)[0] == contents@[i as int]@);
        assert(all.skip(i as int).drop_first() == all.skip(i + 1));
        let text: &str = contents[i].as_str();
        let equation: Option<String> = take_equation(
            read_flag(text, "ok"),
            read_word(text, "reaction_equation"),
            printed_reaction_equations,
        );
        if equation.is_some() {
            return equation;
        }
    }
    None
}

/// How many bytes a character takes in UTF-8.
pub open spec fn char_bytes(c: char) -> nat {
    if c <= '\u{7f}' {
        1
    } else if c <= '\u{7ff}' {
        2
    } else if c <= '\u{ffff}' {
        3
    } else {
        4
    }
}

fn count_char_bytes(c: char) -> (bytes: usize)
    ensures
        bytes == char_bytes(c),
{
    if c <= '\u{7f}' {
        1
    } else if c <= '\u{7ff}' {
        2
    } else if c <= '\u{ffff}' {
        3
    } else {
        4
    }
}

/// How many bytes a text takes in UTF-8.
pub open spec fn text_bytes(text: Seq<char>) -> nat
    decreases text.len(),
{
    if text.len() == 0 {
        0
    } else {
        char_bytes(text[0]) + text_bytes(text.drop_first())
    }
}

/// The longest end of a text that takes no more than [`TAIL_BYTES`].
pub open spec fn short_tail(text: Seq<char>) -> Seq<char>
    decreases text.len(),
{
    if text_bytes(text) <= TAIL_BYTES || text.len() == 0 {
        text
    } else {
        short_tail(text.drop_first())
    }
}

/// Whether a pattern stands at an index and not before it.
pub open spec fn first_occurrence(text: Seq<char>, pattern: Seq<char>, i: int) -> bool {
    occurs_at(text, pattern, i) && forall|k: int| 0 <= k < i ==> !occurs_at(text, pattern, k)
}

/// The text in front of the first occurrence of a pattern.
pub open spec fn text_before(text: Seq<char>, pattern: Seq<char>) -> Seq<char> {
    text.take(choose|i: int| first_occurrence(text, pattern, i))
}

/// What is shown of a text that waits, and what goes on waiting. The text from the end marker on
/// is never shown. An end that may be the start of a marker waits, unless `force` is set.
pub open spec fn flushed(pending: Seq<char>, force: bool) -> (Seq<char>, Seq<char>) {
    if contains(pending, END_MARKER@) {
        (text_before(pending, END_MARKER@), Seq::empty())
    } else if force {
        (pending, Seq::empty())
    } else {
        (pending.take(pending.len() - short_tail(pending).len()), short_tail(pending))
    }
}

pub proof fn lemma_text_bytes_skip(text: Seq<char>, i: int)
    requires
        0 <= i <= text.len(),
    ensures
        text_bytes(text.skip(i)) <= text_bytes(text),
        i < text.len() ==> text_bytes(text.skip(i)) == char_bytes(text[i]) + text_bytes(
            text.skip(i + 1),
        ),
    decreases i,
{
    if i > 0 {
        lemma_text_bytes_skip(text.drop_first(), i - 1);
        assert(text.drop_first().skip(i - 1) == text.skip(i));
    } else {
        assert(text.skip(0) == text);
    }
    if i < text.len() {
        assert(text.skip(i).drop_first() == text.skip(i + 1));
    }
}

proof fn lemma_short_tail_is(text: Seq<char>, i: int)
    requires
        0 <= i <= text.len(),
        text_bytes(text.skip(i)) <= TAIL_BYTES,
        i > 0 ==> text_bytes(text.skip(i - 1)) > TAIL_BYTES,
    ensures
        short_tail(text) == text.skip(i),
    decreases i,
{
    if i == 0 {
        assert(text.skip(0) == text);
    } else {
        lemma_text_bytes_skip(text, i - 1);
        let rest = text.drop_first();
        assert(rest.skip(i - 1) == text.skip(i));
        if i > 1 {
            assert(rest.skip(i - 2) == text.skip(i - 1));
        }
        lemma_short_tail_is(rest, i - 1);
    }
}

/// Shows what can be shown of a text that waits: returns what to print.
pub fn flush_visible_stream_text(pending_text: &mut String, force: bool) -> (shown: String)
    ensures
        (shown@, final(pending_text)@) == flushed(old(pending_text)@, force),
{
    let chars: Vec<char> = chars_of(pending_text.as_str());
    let marker: Vec<char> = chars_of(END_MARKER);
    match find_chars(&chars, &marker) {
        Some(start) => {
            assert(first_occurrence(chars@, END_MARKER@, start as int));
            let ghost other = choose|i: int| first_occurrence(chars@, END_MARKER@, i);
            assert(other == start) by {
                assert(first_occurrence(chars@, END_MARKER@, other));
            }
            *pending_text = String::new();
            let visible: Vec<char> = part(&chars, 0, start);
            assert(visible@ == chars@.take(start as int));
            return string_of(&visible);
        },
        None => {},
    }
    if force {
        *pending_text = String::new();
        return string_of(&chars);
    }
    let mut start: usize = chars.len();
    let mut bytes: usize = 0;
    assert(chars@.skip(chars@.len() as int) == Seq::<char>::empty());
    while start > 0 && bytes + count_char_bytes(chars[start - 1]) <= TAIL_BYTES
        invariant
            start <= chars@.len(),
            bytes == text_bytes(chars@.skip(start as int)),
            bytes <= TAIL_BYTES,
        decreases start,
    {
        proof {
            lemma_text_bytes_skip(chars@, start - 1);
        }
        bytes += count_char_bytes(chars[start - 1]);
        start -= 1;
    }
    proof {
        if start > 0 {
            lemma_text_bytes_skip(chars@, start - 1);
        }
        lemma_short_tail_is(chars@, start as int);
    }
    let visible: Vec<char> = part(&chars, 0, start);
    let tail: Vec<char> = part(&chars, start, chars.len());
    assert(visible@ == chars@.take(start as int));
    assert(tail@ == chars@.skip(start as int));
    *pending_text = string_of(&tail);
    string_of(&visible)
}

/// What is known of an answer while it arrives.
pub struct StreamState {
    pub response_text: String,
    pub pending_text: String,
    pub should_end: bool,
    pub printed_visible_text: bool,
    pub printed_reaction_equations: Vec<String>,
    pub showing_thinking: bool,
    pub thinking_char_count: usize,
    pub suppress_duplicate_reaction_line: bool,
    pub duplicate_reaction_line_buffer: String,
}

/// What a [`StreamState`] says.
pub struct Flow {
    /// The answer so far.
    pub answer: Seq<char>,
    /// What waits to be shown.
    pub pending: Seq<char>,
    /// Whether the answer ends the conversation.
    pub should_end: bool,
    /// Whether anything of the answer was shown.
    pub shown_any: bool,
    /// The equations that were shown.
    pub equations: Seq<Seq<char>>,
    /// Whether the sign of thinking is shown.
    pub thinking: bool,
    /// How many characters of thought there were.
    pub thought: nat,
    /// Whether the rest of the line is dropped.
    pub muted: bool,
    /// The start of a line that may still be dropped.
    pub held: Seq<char>,
}

impl Flow {
    /// Whether the equations that were shown stand in order, each once, and the filter of lines is
    /// in a state that it can be in.
    pub open spec fn well_formed(self) -> bool {
        ascending(self.equations) && valid_filter(self.held, self.muted)
    }
}

impl View for StreamState {
    type V = Flow;

    open spec fn view(&self) -> Flow {
        Flow {
            answer: self.response_text@,
            pending: self.pending_text@,
            should_end: self.should_end,
            shown_any: self.printed_visible_text,
            equations: texts(self.printed_reaction_equations@),
            thinking: self.showing_thinking,
            thought: self.thinking_char_count as nat,
            muted: self.suppress_duplicate_reaction_line,
            held: self.duplicate_reaction_line_buffer@,
        }
    }
}

/// Something that happens while an answer arrives.
pub enum StreamEvent {
    /// The answer takes too long.
    OutOfTime,
    /// The next piece takes too long.
    Stalled,
    /// A piece of the answer.
    Text(String),
    /// A thought, in pieces.
    Reasoning(Vec<String>),
    /// A piece of a thought.
    ReasoningDelta(String),
    /// The texts of the result of a tool.
    ToolResult(Vec<String>),
    /// The answer as a whole.
    FinalResponse(String),
    /// Anything that calls for nothing.
    Other,
    /// The answer is complete.
    Ended,
}

/// What a [`StreamEvent`] says.
pub enum Incident {
    OutOfTime,
    Stalled,
    Text(Seq<char>),
    Thought(Seq<Seq<char>>),
    ToolResult(Seq<Seq<char>>),
    FinalResponse(Seq<char>),
    Other,
    Ended,
}

impl View for StreamEvent {
    type V = Incident;

    open spec fn view(&self) -> Incident {
        match *self {
            StreamEvent::OutOfTime => Incident::OutOfTime,
            StreamEvent::Stalled => Incident::Stalled,
            StreamEvent::Text(text) => Incident::Text(text@),
            StreamEvent::Reasoning(content) => Incident::Thought(texts(content@)),
            StreamEvent::ReasoningDelta(text) => Incident::Thought(seq![text@]),
            StreamEvent::ToolResult(contents) => Incident::ToolResult(texts(contents@)),
            StreamEvent::FinalResponse(text) => Incident::FinalResponse(text@),
            StreamEvent::Other => Incident::Other,
            StreamEvent::Ended => Incident::Ended,
        }
    }
}

/// What to print, and, where nothing more is to come, whether the conversation ends.
pub struct StreamStep {
    pub output: String,
    pub end: Option<bool>,
}

/// What follows from an incident: the state, what is printed, and how the answer ends, if it does.
pub struct Effect {
    pub flow: Flow,
    pub output: Seq<char>,
    pub end: Option<bool>,
}

/// A flow of which nothing arrived yet.
pub open spec fn fresh_flow() -> Flow {
    Flow {
        answer: Seq::empty(),
        pending: Seq::empty(),
        should_end: false,
        shown_any: false,
        equations: Seq::empty(),
        thinking: false,
        thought: 0,
        muted: false,
        held: Seq::empty(),
    }
}

/// The line break after a text, if there is any text.
pub open spec fn break_after(text: Seq<char>) -> Seq<char> {
    if text.len() > 0 {
        "\n"@
    } else {
        Seq::empty()
    }
}

/// The effect of giving up on an answer.
pub open spec fn after_interruption(flow: Flow, message: Seq<char>) -> Effect {
    Effect {
        flow: Flow { thinking: false, ..flow },
        output: clearing(flow.thinking) + message,
        end: Some(false),
    }
}

/// The effect of a piece of the answer.
pub open spec fn after_text(flow: Flow, text: Seq<char>) -> Effect {
    let passed = filter_step(sanitized(text), flow.equations.len() > 0, flow.held, flow.muted);
    let (shown, rest) = flushed(flow.pending + passed.shown, false);
    Effect {
        flow: Flow {
            answer: flow.answer + text,
            pending: rest,
            shown_any: flow.shown_any || shown.len() > 0,
            thinking: false,
            muted: passed.muted,
            held: passed.held,
            ..flow
        },
        output: clearing(flow.thinking) + shown,
        end: None,
    }
}

/// The effect of a thought.
pub open spec fn after_thought(flow: Flow, pieces: Seq<Seq<char>>) -> Effect {
    let thought = flow.thought + total_length(pieces);
    Effect {
        flow: Flow { thinking: true, thought, ..flow },
        output: thinking_words(thought),
        end: None,
    }
}

/// An equation as it is shown.
pub open spec fn equation_line(equation: Option<Seq<char>>) -> Seq<char> {
    match equation {
        Some(text) => "反応式: "@ + text + "\n"@,
        None => Seq::empty(),
    }
}

/// The effect of the result of a tool.
pub open spec fn after_tool_result(flow: Flow, contents: Seq<Seq<char>>) -> Effect {
    let (shown, rest) = flushed(flow.pending, true);
    let equation = equation_in(contents, flow.equations);
    Effect {
        flow: Flow {
            pending: rest,
            shown_any: flow.shown_any || shown.len() > 0 || equation is Some,
            equations: with_equation(flow.equations, equation),
            thinking: false,
            ..flow
        },
        output: clearing(flow.thinking) + shown + break_after(shown) + equation_line(equation),
        end: None,
    }
}

/// The effect of the answer as a whole.
pub open spec fn after_final_response(flow: Flow, text: Seq<char>) -> Effect {
    Effect {
        flow: Flow { thinking: false, should_end: contains(text, END_MARKER@), ..flow },
        output: clearing(flow.thinking),
        end: None,
    }
}

/// The effect of the end of the answer.
pub open spec fn after_end(flow: Flow) -> Effect {
    let should_end = flow.should_end || contains(flow.pending, END_MARKER@);
    let (shown, rest) = flushed(flow.pending + last_line(flow.held), true);
    let shown_any = flow.shown_any || shown.len() > 0;
    let closing = if should_end && !shown_any {
        "終了します。\n"@
    } else if shown_any {
        "\n"@
    } else {
        Seq::empty()
    };
    Effect {
        flow: Flow {
            pending: rest,
            should_end,
            shown_any,
            thinking: false,
            held: Seq::empty(),
            ..flow
        },
        output: clearing(flow.thinking) + shown + closing,
        end: Some(should_end),
    }
}

/// The effect of an incident.
pub open spec fn after(flow: Flow, incident: Incident) -> Effect {
    match incident {
        Incident::OutOfTime => after_interruption(
            flow,
            "応答が長時間完了しなかったため中断しました。もう一度、化学式のリストを具体的に入力してください。\n"@,
        ),
        Incident::Stalled => after_interruption(
            flow,
            "応答が停止したため中断しました。もう一度、化学式のリストを具体的に入力してください。\n"@,
        ),
        Incident::Text(text) => after_text(flow, text),
        Incident::Thought(pieces) => after_thought(flow, pieces),
        Incident::ToolResult(contents) => after_tool_result(flow, contents),
        Incident::FinalResponse(text) => after_final_response(flow, text),
        Incident::Other => Effect { flow, output: Seq::empty(), end: None },
        Incident::Ended => after_end(flow),
    }
}

impl StreamState {
    /// The state before anything arrived.
    pub fn new() -> (state: Self)
        ensures
            state@ == fresh_flow(),
            state@.well_formed(),
    {
        let printed_reaction_equations: Vec<String> = Vec::new();
        assert(texts(printed_reaction_equations@) == Seq::<Seq<char>>::empty());
        proof {
            lemma_empty_filter_is_valid(false);
        }
        StreamState {
            response_text: String::new(),
            pending_text: String::new(),
            should_end: false,
            printed_visible_text: false,
            printed_reaction_equations,
            showing_thinking: false,
            thinking_char_count: 0,
            suppress_duplicate_reaction_line: false,
            duplicate_reaction_line_buffer: String::new(),
        }
    }

    fn interrupt(&mut self, message: &str) -> (step: StreamStep)
        ensures
            (Effect { flow: final(self)@, output: step.output@, end: step.end })
                == after_interruption(old(self)@, message@),
    {
        let mut output: String = clear_thinking_indicator(&mut self.showing_thinking);
        output.append(message);
        StreamStep { output, end: Some(false) }
    }

    fn take_text(&mut self, text: &str) -> (step: StreamStep)
        ensures
            (Effect { flow: final(self)@, output: step.output@, end: step.end }) == after_text(
                old(self)@,
                text@,
            ),
    {
        let mut output: String = clear_thinking_indicator(&mut self.showing_thinking);
        self.response_text.append(text);
        let plain: String = sanitize_assistant_text(text);
        assert(texts(self.printed_reaction_equations@).len()
            == self.printed_reaction_equations@.len());
        let passed: String = filter_duplicate_reaction_line(
            plain.as_str(),
            self.printed_reaction_equations.len() > 0,
            &mut self.suppress_duplicate_reaction_line,
            &mut self.duplicate_reaction_line_buffer,
        );
        self.pending_text.append(passed.as_str());
        let shown: String = flush_visible_stream_text(&mut self.pending_text, false);
        if chars_of(shown.as_str()).len() > 0 {
            self.printed_visible_text = true;
        }
        output.append(shown.as_str());
        StreamStep { output, end: None }
    }

    fn take_thought(&mut self, length: usize) -> (step: StreamStep)
        requires
            old(self)@.thought + length <= usize::MAX,
        ensures
            final(self)@ == (Flow {
                thinking: true,
                thought: (old(self)@.thought + length) as nat,
                ..old(self)@
            }),
            step.output@ == thinking_words((old(self)@.thought + length) as nat),
            step.end is None,
    {
        let output: String = update_thinking_indicator(
            length,
            &mut self.thinking_char_count,
            &mut self.showing_thinking,
        );
        StreamStep { output, end: None }
    }

    fn take_tool_result(&mut self, contents: &Vec<String>) -> (step: StreamStep)
        ensures
            (Effect { flow: final(self)@, output: step.output@, end: step.end })
                == after_tool_result(old(self)@, texts(contents@)),
    {
        let mut output: String = clear_thinking_indicator(&mut self.showing_thinking);
        let shown: String = flush_visible_stream_text(&mut self.pending_text, true);
        output.append(shown.as_str());
        if chars_of(shown.as_str()).len() > 0 {
            self.printed_visible_text = true;
            output.append("\n");
        }
        let equation: Option<String> = reaction_equation_from_tool_result(
            contents,
            &mut self.printed_reaction_equations,
        );
        match equation {
            Some(text) => {
                self.printed_visible_text = true;
                output.append("反応式: ");
                output.append(text.as_str());
                output.append("\n");
            },
            None => {},
        }
        let ghost goal = after_tool_result(old(self)@, texts(contents@));
        assert(output@ == goal.output);
        StreamStep { output, end: None }
    }

    fn take_final_response(&mut self, text: &str) -> (step: StreamStep)
        ensures
            (Effect { flow: final(self)@, output: step.output@, end: step.end })
                == after_final_response(old(self)@, text@),
    {
        let output: String = clear_thinking_indicator(&mut self.showing_thinking);
        self.should_end = has_pattern(&chars_of(text), END_MARKER);
        StreamStep { output, end: None }
    }

    fn finish(&mut self) -> (step: StreamStep)
        ensures
            (Effect { flow: final(self)@, output: step.output@, end: step.end }) == after_end(
                old(self)@,
            ),
    {
        if has_pattern(&chars_of(self.pending_text.as_str()), END_MARKER) {
            self.should_end = true;
        }
        let mut output: String = clear_thinking_indicator(&mut self.showing_thinking);
        let rest: String = flush_duplicate_reaction_line_buffer(
            &mut self.duplicate_reaction_line_buffer,
        );
        self.pending_text.append(rest.as_str());
        let shown: String = flush_visible_stream_text(&mut self.pending_text, true);
        output.append(shown.as_str());
        if chars_of(shown.as_str()).len() > 0 {
            self.printed_visible_text = true;
        }
        if self.should_end && !self.printed_visible_text {
            output.append("終了します。\n");
        } else if self.printed_visible_text {
            output.append("\n");
        }
        assert(output@ == after_end(old(self)@).output);
        StreamStep { output, end: Some(self.should_end) }
    }

    /// Takes in what happened: returns what to print, and whether the conversation ends, where
    /// nothing more is to come.
    pub fn step(&mut self, event: StreamEvent) -> (step: StreamStep)
        requires
            event@ matches Incident::Thought(pieces) ==> old(self)@.thought + total_length(pieces)
                <= usize::MAX,
        ensures
            (Effect { flow: final(self)@, output: step.output@, end: step.end }) == after(
                old(self)@,
                event@,
            ),
            old(self)@.well_formed() ==> final(self)@.well_formed(),
    {
        proof {
            if self@.well_formed() {
                law_flow_stays_well_formed(self@, event@);
            }
        }
        match event {
            StreamEvent::OutOfTime => self.interrupt(
                "応答が長時間完了しなかったため中断しました。もう一度、化学式のリストを具体的に入力してください。\n",
            ),
            StreamEvent::Stalled => self.interrupt(
                "応答が停止したため中断しました。もう一度、化学式のリストを具体的に入力してください。\n",
            ),
            StreamEvent::Text(text) => self.take_text(text.as_str()),
            StreamEvent::Reasoning(content) => self.take_thought(reasoning_text_len(&content)),
            StreamEvent::ReasoningDelta(text) => {
                proof {
                    assert(seq![text@].drop_last() == Seq::<Seq<char>>::empty());
                    assert(total_length(seq![text@].drop_last()) == 0);
                }
                self.take_thought(chars_of(text.as_str()).len())
            },
            StreamEvent::ToolResult(contents) => self.take_tool_result(&contents),
            StreamEvent::FinalResponse(text) => self.take_final_response(text.as_str()),
            StreamEvent::Other => StreamStep { output: String::new(), end: None },
            StreamEvent::Ended => self.finish(),
        }
    }
}

} // verus!
