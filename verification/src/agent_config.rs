//! How the assistant is set up for a model.

use vstd::prelude::*;

use crate::json::{insert_flag, insert_number, insert_word, members, new_object, Scalar};
use crate::prompt::AGENT_PREAMBLE;
use crate::text::{all_digits, ascii_digit, chars_of, contains, decimal, digits_value, has_pattern, lower_case, parse_unsigned, string_of, text_in, to_lower_case, trim, trim_chars, trim_end, trim_start, unsigned_number, white_space};

verus! {

/// The length of the context where none is set.
pub const DEFAULT_OLLAMA_NUM_CTX: u64 = 9068;

/// The address of the service where none is set.
pub const DEFAULT_OLLAMA_BASE_URL: &'static str = "http://localhost:11434";

/// The model where none is set.
pub const DEFAULT_OLLAMA_MODEL: &'static str = "qwen3.6:35b";

/// How many rounds of tool calls an answer may take.
pub const MAX_TURNS: usize = 8;

/// How a model is asked to think before it answers.
#[derive(Debug, Clone, Copy, PartialEq, Eq)]
pub enum ThinkingMode {
    /// By a flag of the request.
    OllamaBool,
    /// By a level in the request.
    OllamaLevel(&'static str),
    /// By a mark in front of the instructions.
    PromptToken,
    /// Not at all.
    Disabled,
}

/// What a [`ThinkingMode`] says.
pub enum Thinking {
    Flag,
    Level(Seq<char>),
    Token,
    Off,
}

impl View for ThinkingMode {
    type V = Thinking;

    open spec fn view(&self) -> Thinking {
        match *self {
            ThinkingMode::OllamaBool => Thinking::Flag,
            ThinkingMode::OllamaLevel(level) => Thinking::Level(level@),
            ThinkingMode::PromptToken => Thinking::Token,
            ThinkingMode::Disabled => Thinking::Off,
        }
    }
}

/// Whether the name of a model, in lower case, is that of one with a thinking flag.
pub open spec fn takes_flag(name: Seq<char>) -> bool {
    ||| contains(name, "qwen3"@)
    ||| contains(name, "qwen3.5"@)
    ||| contains(name, "qwen3.6"@)
    ||| contains(name, "deepseek-r1"@)
    ||| contains(name, "deepseek-v3.1"@)
    ||| contains(name, "deepseek-v3.2"@)
    ||| contains(name, "deepseek-v4"@)
    ||| contains(name, "glm-4.7"@)
    ||| contains(name, "glm-5"@)
    ||| contains(name, "glm-5.1"@)
    ||| contains(name, "minimax-m2.5"@)
    ||| contains(name, "minimax-m2.7"@)
    ||| contains(name, "minimax-m3"@)
    ||| contains(name, "lfm2.5"@)
    ||| contains(name, "nemotron3"@)
    ||| contains(name, "nemotron-3"@)
    ||| contains(name, "kimi-k2.5"@)
    ||| contains(name, "kimi-k2.6"@)
    ||| contains(name, "gemini-3-flash-preview"@)
}

fn has_flag(name: &Vec<char>) -> (r: bool)
    ensures
        r == takes_flag(name@),
{
    has_pattern(name, "qwen3") || has_pattern(name, "qwen3.5") || has_pattern(name, "qwen3.6")
        || has_pattern(name, "deepseek-r1") || has_pattern(name, "deepseek-v3.1") || has_pattern(
        name,
        "deepseek-v3.2",
    ) || has_pattern(name, "deepseek-v4") || has_pattern(name, "glm-4.7") || has_pattern(
        name,
        "glm-5",
    ) || has_pattern(name, "glm-5.1") || has_pattern(name, "minimax-m2.5") || has_pattern(
        name,
        "minimax-m2.7",
    ) || has_pattern(name, "minimax-m3") || has_pattern(name, "lfm2.5") || has_pattern(
        name,
        "nemotron3",
    ) || has_pattern(name, "nemotron-3") || has_pattern(name, "kimi-k2.5") || has_pattern(
        name,
        "kimi-k2.6",
    ) || has_pattern(name, "gemini-3-flash-preview")
}

/// How a model is asked to think. The case of ASCII letters in its name does not matter.
pub open spec fn thinking_of(model: Seq<char>) -> Thinking {
    let name = lower_case(model);
    if contains(name, "gemma4"@) || contains(name, "gemma-4"@) {
        Thinking::Token
    } else if contains(name, "gpt-oss"@) {
        Thinking::Level("medium"@)
    } else if takes_flag(name) {
        Thinking::Flag
    } else {
        Thinking::Off
    }
}

/// How a model is asked to think.
pub fn thinking_mode_for_model(model: &str) -> (mode: ThinkingMode)
    ensures
        mode@ == thinking_of(model@),
{
    let name: Vec<char> = to_lower_case(&chars_of(model));
    if has_pattern(&name, "gemma4") || has_pattern(&name, "gemma-4") {
        ThinkingMode::PromptToken
    } else if has_pattern(&name, "gpt-oss") {
        ThinkingMode::OllamaLevel("medium")
    } else if has_flag(&name) {
        ThinkingMode::OllamaBool
    } else {
        ThinkingMode::Disabled
    }
}

/// Law: the case of the ASCII letters in the name of a model does not matter.
pub proof fn law_model_case_is_ignored(model: Seq<char>, other: Seq<char>)
    requires
        lower_case(model) == lower_case(other),
    ensures
        thinking_of(model) == thinking_of(other),
        thinking_of(lower_case(model)) == thinking_of(model),
{
    assert(lower_case(lower_case(model)) == lower_case(model));
}

/// Why a setting is not a length of a context.
#[derive(Debug, Clone, PartialEq)]
pub enum ContextLengthError {
    /// The setting does not write a whole number of 64 bits.
    NotANumber(String),
    /// The setting is zero.
    Zero,
}

/// What a [`ContextLengthError`] says.
pub enum ContextLengthFault {
    NotANumber(Seq<char>),
    Zero,
}

impl View for ContextLengthError {
    type V = ContextLengthFault;

    open spec fn view(&self) -> ContextLengthFault {
        match *self {
            ContextLengthError::NotANumber(text) => ContextLengthFault::NotANumber(text@),
            ContextLengthError::Zero => ContextLengthFault::Zero,
        }
    }
}

impl ContextLengthFault {
    /// The fault in words.
    pub open spec fn words(self) -> Seq<char> {
        match self {
            ContextLengthFault::NotANumber(text) => "OLLAMA_NUM_CTX must be a positive integer: "@
                + text,
            ContextLengthFault::Zero => "OLLAMA_NUM_CTX must be greater than 0"@,
        }
    }
}

impl ContextLengthError {
    /// The error in words.
    pub fn message(&self) -> (text: String)
        ensures
            text@ == self@.words(),
    {
        match self {
            ContextLengthError::NotANumber(given) => {
                let mut text: String = "OLLAMA_NUM_CTX must be a positive integer: ".to_string();
                text.append(given.as_str());
                text
            },
            ContextLengthError::Zero => "OLLAMA_NUM_CTX must be greater than 0".to_string(),
        }
    }
}

/// The length of the context that a setting asks for, or why it asks for none.
pub open spec fn context_length(setting: Option<Seq<char>>) -> Result<u64, ContextLengthFault> {
    match setting {
        None => Ok(DEFAULT_OLLAMA_NUM_CTX),
        Some(text) => match unsigned_number(trim(text)) {
            None => Err(ContextLengthFault::NotANumber(trim(text))),
            Some(length) => if length == 0 {
                Err(ContextLengthFault::Zero)
            } else {
                Ok(length)
            },
        },
    }
}

/// Reads the setting of the length of the context.
pub fn parse_ollama_num_ctx(value: Option<String>) -> (r: Result<u64, ContextLengthError>)
    ensures
        match r {
            Ok(length) => context_length(text_in(value)) == Ok::<u64, ContextLengthFault>(length),
            Err(error) => context_length(text_in(value)) == Err::<u64, ContextLengthFault>(error@),
        },
{
    let text: String = match value {
        None => {
            return Ok(DEFAULT_OLLAMA_NUM_CTX);
        },
        Some(text) => text,
    };
    let trimmed: Vec<char> = trim_chars(&chars_of(text.as_str()));
    match parse_unsigned(&trimmed) {
        None => Err(ContextLengthError::NotANumber(string_of(&trimmed))),
        Some(length) => if length == 0 {
            Err(ContextLengthError::Zero)
        } else {
            Ok(length)
        },
    }
}

proof fn lemma_trim_start_around(before: Seq<char>, text: Seq<char>)
    requires
        forall|i: int| 0 <= i < before.len() ==> white_space(#[trigger] before[i]),
    ensures
        trim_start(before + text, |c: char| white_space(c)) == trim_start(
            text,
            |c: char| white_space(c),
        ),
    decreases before.len(),
{
    if before.len() == 0 {
        assert(before + text == text);
    } else {
        let rest = before.drop_first();
        assert(white_space(before[0]));
        assert forall|i: int| 0 <= i < rest.len() implies white_space(#[trigger] rest[i]) by {
            assert(white_space(before[i + 1]));
        }
        lemma_trim_start_around(rest, text);
        assert((before + text).drop_first() == rest + text);
    }
}

proof fn lemma_trim_end_around(text: Seq<char>, after: Seq<char>)
    requires
        forall|i: int| 0 <= i < after.len() ==> white_space(#[trigger] after[i]),
    ensures
        trim_end(text + after, |c: char| white_space(c)) == trim_end(
            text,
            |c: char| white_space(c),
        ),
    decreases after.len(),
{
    if after.len() == 0 {
        assert(text + after == text);
    } else {
        let rest = after.drop_last();
        assert(white_space(after[after.len() - 1]));
        assert forall|i: int| 0 <= i < rest.len() implies white_space(#[trigger] rest[i]) by {
            assert(white_space(after[i]));
        }
        lemma_trim_end_around(text, rest);
        assert((text + after).drop_last() == text + rest);
    }
}

/// A number in decimal digits is read back.
proof fn lemma_decimal_digits(n: nat)
    ensures
        decimal(n).len() > 0,
        all_digits(decimal(n)),
        digits_value(decimal(n)) == n,
    decreases n,
{
    let text = decimal(n);
    if n < 10 {
        assert(text.drop_last() == Seq::<char>::empty());
        assert(digits_value(text.drop_last()) == 0);
    } else {
        lemma_decimal_digits(n / 10);
        assert(text.drop_last() == decimal(n / 10));
        assert forall|i: int| 0 <= i < text.len() implies ascii_digit(#[trigger] text[i]) by {
            if i < text.len() - 1 {
                assert(text[i] == decimal(n / 10)[i]);
            }
        }
    }
}

/// Law: decimal digits with white space around them are read as the number that they write, which
/// has to fit 64 bits. Zero is refused.
pub proof fn law_digits_are_read(before: Seq<char>, digits: Seq<char>, after: Seq<char>)
    requires
        forall|i: int| 0 <= i < before.len() ==> white_space(#[trigger] before[i]),
        forall|i: int| 0 <= i < after.len() ==> white_space(#[trigger] after[i]),
        digits.len() > 0,
        all_digits(digits),
        digits_value(digits) <= u64::MAX,
    ensures
        context_length(Some(before + digits + after)) == (if digits_value(digits) == 0 {
            Err::<u64, ContextLengthFault>(ContextLengthFault::Zero)
        } else {
            Ok::<u64, ContextLengthFault>(digits_value(digits) as u64)
        }),
{
    let space = |c: char| white_space(c);
    assert(ascii_digit(digits[0]));
    assert(ascii_digit(digits[digits.len() - 1]));
    assert(before + digits + after == before + (digits + after));
    lemma_trim_start_around(before, digits + after);
    assert(trim_start(digits + after, space) == digits + after) by {
        assert((digits + after)[0] == digits[0]);
    }
    lemma_trim_end_around(digits, after);
    assert(trim_end(digits, space) == digits);
    assert(trim(before + digits + after) == digits);
}

/// Law: a number written in decimal, with white space around it, is read back. Zero is refused.
pub proof fn law_decimals_are_read_back(before: Seq<char>, n: u64, after: Seq<char>)
    requires
        forall|i: int| 0 <= i < before.len() ==> white_space(#[trigger] before[i]),
        forall|i: int| 0 <= i < after.len() ==> white_space(#[trigger] after[i]),
    ensures
        context_length(Some(before + decimal(n as nat) + after)) == (if n == 0 {
            Err::<u64, ContextLengthFault>(ContextLengthFault::Zero)
        } else {
            Ok::<u64, ContextLengthFault>(n)
        }),
{
    lemma_decimal_digits(n as nat);
    law_digits_are_read(before, decimal(n as nat), after);
}

/// Law: where no length is set, the default is used. A text that writes no number of 64 bits is
/// refused, and the refusal names the text without white space at its ends: one that is empty, one
/// that holds anything but digits behind an optional plus sign, and one that writes a larger number.
/// Zero is refused as such.
pub proof fn law_other_settings_are_refused(text: Seq<char>, digits: Seq<char>)
    requires
        trim(text) == digits || trim(text) == seq!['+'] + digits,
        trim(text) == digits ==> digits.len() == 0 || digits[0] != '+',
    ensures
        context_length(None) == Ok::<u64, ContextLengthFault>(9068),
        digits.len() == 0 || !all_digits(digits) || digits_value(digits) > u64::MAX
            ==> context_length(Some(text)) == Err::<u64, ContextLengthFault>(
            ContextLengthFault::NotANumber(trim(text)),
        ),
        digits.len() > 0 && all_digits(digits) && 0 < digits_value(digits) <= u64::MAX
            ==> context_length(Some(text)) == Ok::<u64, ContextLengthFault>(
            digits_value(digits) as u64,
        ),
        digits.len() > 0 && all_digits(digits) && digits_value(digits) == 0 ==> context_length(
            Some(text),
        ) == Err::<u64, ContextLengthFault>(ContextLengthFault::Zero),
{
    if trim(text) != digits {
        assert(trim(text).drop_first() == digits);
    }
}

/// The instructions and the parameters of the requests to a model.
pub struct AgentPromptConfig {
    pub preamble: String,
    pub params: serde_json::Map<String, serde_json::Value>,
    pub thinking_mode: ThinkingMode,
}

/// The instructions for a model that is asked to think in a given way.
pub open spec fn preamble_for(thinking: Thinking) -> Seq<char> {
    match thinking {
        Thinking::Token => "<|think|>\n"@ + AGENT_PREAMBLE@,
        _ => AGENT_PREAMBLE@,
    }
}

/// The parameters of the requests to a model that is asked to think in a given way.
pub open spec fn params_for(thinking: Thinking, num_ctx: u64) -> Map<Seq<char>, Scalar> {
    let length = map!["num_ctx"@ => Scalar::Number(num_ctx)];
    match thinking {
        Thinking::Flag => length.insert("think"@, Scalar::Flag(true)),
        Thinking::Level(level) => length.insert("think"@, Scalar::Text(level)),
        _ => length,
    }
}

/// Sets the assistant up for a model.
pub fn build_agent_prompt_config(model: &str, num_ctx: u64) -> (config: AgentPromptConfig)
    ensures
        config.thinking_mode@ == thinking_of(model@),
        config.preamble@ == preamble_for(thinking_of(model@)),
        members(config.params) == params_for(thinking_of(model@), num_ctx),
{
    let thinking_mode: ThinkingMode = thinking_mode_for_model(model);
    let mut preamble: String = String::new();
    let mut params: serde_json::Map<String, serde_json::Value> = new_object();
    insert_number(&mut params, "num_ctx", num_ctx);
    match thinking_mode {
        ThinkingMode::OllamaBool => {
            insert_flag(&mut params, "think", true);
        },
        ThinkingMode::OllamaLevel(level) => {
            insert_word(&mut params, "think", level);
        },
        ThinkingMode::PromptToken => {
            preamble.append("<|think|>\n");
        },
        ThinkingMode::Disabled => {},
    }
    preamble.append(AGENT_PREAMBLE);
    assert(Seq::<char>::empty() + AGENT_PREAMBLE@ == AGENT_PREAMBLE@);
    AgentPromptConfig { preamble, params, thinking_mode }
}

/// The notice that a model is not asked to think, if it is not.
pub open spec fn notice_for(thinking: Thinking, model: Seq<char>) -> Option<Seq<char>> {
    match thinking {
        Thinking::Off => Some(
            "注意: このモデルでは thinking 出力を有効化しません。Thinking... 表示は出ない場合があります。model: "@
                + model,
        ),
        _ => None,
    }
}

/// What to tell the user about a model that is not asked to think.
pub fn thinking_notice(mode: ThinkingMode, model: &str) -> (notice: Option<String>)
    ensures
        text_in(notice) == notice_for(mode@, model@),
{
    match mode {
        ThinkingMode::Disabled => {
            let mut text: String = "注意: このモデルでは thinking 出力を有効化しません。Thinking... 表示は出ない場合があります。model: ".to_string();
            text.append(model);
            Some(text)
        },
        _ => None,
    }
}

/// Law: the length of the context is always among the parameters, and how to think only for a model
/// that takes a flag or a level. The mark of thinking stands in front of the instructions for a
/// model that takes one; else the instructions stand alone. The user is told of a model that is
/// not asked to think, and of no other.
pub proof fn law_setup_follows_the_model(model: Seq<char>, num_ctx: u64)
    ensures
        ({
            let thinking = thinking_of(model);
            let name = lower_case(model);
            let params = params_for(thinking, num_ctx);
            let token = contains(name, "gemma4"@) || contains(name, "gemma-4"@);
            let level = !token && contains(name, "gpt-oss"@);
            &&& params.dom().contains("num_ctx"@) && params["num_ctx"@] == Scalar::Number(num_ctx)
            &&& params.dom().subset_of(set!["num_ctx"@, "think"@])
            &&& level <==> params.dom().contains("think"@) && params["think"@] is Text
            &&& level ==> params["think"@] == Scalar::Text("medium"@)
            &&& thinking is Flag ==> params.dom().contains("think"@) && params["think"@]
                == Scalar::Flag(true)
            &&& thinking is Off || thinking is Token ==> !params.dom().contains("think"@)
            &&& token <==> thinking is Token
            &&& !token && !level ==> (thinking is Flag <==> takes_flag(name))
            &&& !token && !level && !takes_flag(name) <==> thinking is Off
            &&& thinking is Token ==> preamble_for(thinking) == "<|think|>\n"@ + AGENT_PREAMBLE@
            &&& !(thinking is Token) ==> preamble_for(thinking) == AGENT_PREAMBLE@
            &&& notice_for(thinking, model) is Some <==> thinking is Off
            &&& notice_for(thinking, model) matches Some(notice) ==> model.is_suffix_of(notice)
        }),
{
    reveal_strlit("num_ctx");
    reveal_strlit("think");
    assert("num_ctx"@.len() != "think"@.len());
    if thinking_of(model) is Off {
        let front = "注意: このモデルでは thinking 出力を有効化しません。Thinking... 表示は出ない場合があります。model: "@;
        assert((front + model).skip(front.len() as int) == model);
    }
}

} // verus!
