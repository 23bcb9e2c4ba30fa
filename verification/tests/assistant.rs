use weighing_agent::advice::is_inorganic_material_like;
use weighing_agent::agent_config::{
    build_agent_prompt_config, parse_ollama_num_ctx, thinking_mode_for_model, thinking_notice,
    ThinkingMode, DEFAULT_OLLAMA_NUM_CTX,
};
use weighing_agent::arithmetic::Arithmetic;
use weighing_agent::conversation::{
    extract_mass_g, extract_valid_formulas, guess_material_formula, is_confirmation_only,
    ConversationState,
};
use weighing_agent::formula::parse_compound;
use weighing_agent::prompt::{AGENT_PREAMBLE, END_MARKER};
use weighing_agent::session::{
    handle_local_command, take_line, LocalCommand, Reply, WeighingSession,
};
use weighing_agent::streaming::{
    clear_thinking_indicator, filter_duplicate_reaction_line, flush_duplicate_reaction_line_buffer,
    flush_visible_stream_text, reaction_equation_from_tool_result, reasoning_text_len,
    sanitize_assistant_text, take_equation, update_thinking_indicator, StreamEvent, StreamState,
    TAIL_BYTES,
};
use weighing_agent::text::{
    append_decimal, chars_of, comes_before, find_chars, insert_text, is_ascii_digit,
    is_ascii_lowercase, is_ascii_punctuation, is_ascii_uppercase, is_white_space, join_strings,
    parse_unsigned, string_of, to_lower_case, trim_chars,
};

/// IEEE binary64.
struct Binary64;

impl Arithmetic for Binary64 {
    type Number = f64;

    fn from_integer(n: u64) -> f64 {
        n as f64
    }

    fn plus(a: f64, b: f64) -> f64 {
        a + b
    }

    fn minus(a: f64, b: f64) -> f64 {
        a - b
    }

    fn times(a: f64, b: f64) -> f64 {
        a * b
    }

    fn over(a: f64, b: f64) -> f64 {
        a / b
    }

    fn negated(a: f64) -> f64 {
        -a
    }

    fn magnitude(a: f64) -> f64 {
        a.abs()
    }

    fn is_below(a: f64, b: f64) -> bool {
        a < b
    }

    fn is_at_most(a: f64, b: f64) -> bool {
        a <= b
    }

    fn is_ranked_after(a: f64, b: f64) -> bool {
        a.total_cmp(&b).is_gt()
    }

    fn is_finite(a: f64) -> bool {
        a.is_finite()
    }

    fn rounded(a: f64) -> f64 {
        a.round()
    }

    fn parse(text: &str) -> Option<f64> {
        text.parse().ok()
    }

    fn format_fixed(a: f64, decimals: usize) -> String {
        format!("{a:.decimals$}")
    }

    fn format_plain(a: f64) -> String {
        format!("{a}")
    }
}

fn strings(texts: &[&str]) -> Vec<String> {
    texts.iter().map(|text| text.to_string()).collect()
}

#[test]
fn parses_ollama_num_ctx_setting() {
    assert_eq!(parse_ollama_num_ctx(None).unwrap(), DEFAULT_OLLAMA_NUM_CTX);
    assert_eq!(
        parse_ollama_num_ctx(Some(" 16384 ".to_string())).unwrap(),
        16384
    );
    assert!(parse_ollama_num_ctx(Some("0".to_string())).is_err());
    assert!(parse_ollama_num_ctx(Some("large".to_string())).is_err());
}

#[test]
fn explains_settings_that_are_no_length() {
    let error = |text: &str| parse_ollama_num_ctx(Some(text.to_string())).unwrap_err().message();
    assert_eq!(error(" 0 "), "OLLAMA_NUM_CTX must be greater than 0");
    assert_eq!(error(" large "), "OLLAMA_NUM_CTX must be a positive integer: large");
    assert_eq!(error(""), "OLLAMA_NUM_CTX must be a positive integer: ");
    assert_eq!(error("-1"), "OLLAMA_NUM_CTX must be a positive integer: -1");
    assert_eq!(
        error("18446744073709551616"),
        "OLLAMA_NUM_CTX must be a positive integer: 18446744073709551616"
    );
    assert_eq!(DEFAULT_OLLAMA_NUM_CTX, 9068);
}

#[test]
fn detects_model_thinking_modes() {
    for model in [
        "qwen3.6:35b",
        "QWEN3:8b",
        "deepseek-r1:8b",
        "deepseek-v3.2:latest",
        "glm-5.1:latest",
        "minimax-m3:latest",
        "kimi-k2.6:latest",
    ] {
        assert_eq!(thinking_mode_for_model(model), ThinkingMode::OllamaBool);
    }

    assert_eq!(
        thinking_mode_for_model("gpt-oss:20b"),
        ThinkingMode::OllamaLevel("medium")
    );
    assert_eq!(
        thinking_mode_for_model("gemma4:26b"),
        ThinkingMode::PromptToken
    );
    assert_eq!(
        thinking_mode_for_model("gemma-4:26b"),
        ThinkingMode::PromptToken
    );
    assert_eq!(
        thinking_mode_for_model("llama3.2:latest"),
        ThinkingMode::Disabled
    );
}

#[test]
fn reads_back_the_length_of_a_context() {
    for n in [1, 9, 10, 42, 4096, 18_446_744_073_709_551_615u64] {
        let text = format!("\t {n}\u{3000}\n");
        assert_eq!(parse_ollama_num_ctx(Some(text)).unwrap(), n);
        assert_eq!(parse_ollama_num_ctx(Some(format!("00{n}"))).unwrap(), n);
    }
    assert!(parse_ollama_num_ctx(Some("18446744073709551616".to_string())).is_err());
    assert!(parse_ollama_num_ctx(Some(" 000 ".to_string())).is_err());
}

#[test]
fn recognizes_every_model_with_a_thinking_flag() {
    for marker in [
        "qwen3",
        "qwen3.5",
        "qwen3.6",
        "deepseek-r1",
        "deepseek-v3.1",
        "deepseek-v3.2",
        "deepseek-v4",
        "glm-4.7",
        "glm-5",
        "glm-5.1",
        "minimax-m2.5",
        "minimax-m2.7",
        "minimax-m3",
        "lfm2.5",
        "nemotron3",
        "nemotron-3",
        "kimi-k2.5",
        "kimi-k2.6",
        "gemini-3-flash-preview",
    ] {
        let model = format!("library/{}:latest", marker.to_uppercase());
        assert_eq!(thinking_mode_for_model(&model), ThinkingMode::OllamaBool, "{model}");
    }
    assert_eq!(thinking_mode_for_model("qwen3-gpt-oss"), ThinkingMode::OllamaLevel("medium"));
    assert_eq!(thinking_mode_for_model("gpt-oss-gemma4"), ThinkingMode::PromptToken);
    assert_eq!(thinking_mode_for_model("qwen2.5"), ThinkingMode::Disabled);
}

fn object(think: Option<serde_json::Value>, num_ctx: u64) -> serde_json::Value {
    let mut members = serde_json::Map::new();
    if let Some(think) = think {
        members.insert("think".to_string(), think);
    }
    members.insert("num_ctx".to_string(), serde_json::Value::from(num_ctx));
    serde_json::Value::Object(members)
}

#[test]
fn builds_model_specific_agent_prompt_config() {
    let qwen = build_agent_prompt_config("qwen3.6:35b", 4096);
    assert_eq!(qwen.thinking_mode, ThinkingMode::OllamaBool);
    assert_eq!(
        serde_json::Value::Object(qwen.params),
        object(Some(serde_json::Value::from(true)), 4096)
    );
    assert_eq!(qwen.preamble, AGENT_PREAMBLE);

    let gpt_oss = build_agent_prompt_config("gpt-oss:20b", 4096);
    assert_eq!(gpt_oss.thinking_mode, ThinkingMode::OllamaLevel("medium"));
    assert_eq!(
        serde_json::Value::Object(gpt_oss.params),
        object(Some(serde_json::Value::from("medium")), 4096)
    );
    assert_eq!(gpt_oss.preamble, AGENT_PREAMBLE);

    let gemma = build_agent_prompt_config("gemma-4:26b", 4096);
    assert_eq!(gemma.thinking_mode, ThinkingMode::PromptToken);
    assert_eq!(serde_json::Value::Object(gemma.params), object(None, 4096));
    assert!(gemma.preamble.starts_with("<|think|>\n"));
    assert!(gemma.preamble.ends_with(AGENT_PREAMBLE));

    let disabled = build_agent_prompt_config("llama3.2:latest", 4096);
    assert_eq!(disabled.thinking_mode, ThinkingMode::Disabled);
    assert_eq!(serde_json::Value::Object(disabled.params), object(None, 4096));
    assert_eq!(disabled.preamble, AGENT_PREAMBLE);
}

#[test]
fn writes_params_as_json() {
    let config = build_agent_prompt_config("gpt-oss", u64::MAX);
    assert_eq!(
        serde_json::to_string(&config.params).unwrap(),
        "{\"num_ctx\":18446744073709551615,\"think\":\"medium\"}"
    );
}

#[test]
fn notices_that_a_model_does_not_think() {
    assert_eq!(
        thinking_notice(ThinkingMode::Disabled, "llama").as_deref(),
        Some("注意: このモデルでは thinking 出力を有効化しません。Thinking... 表示は出ない場合があります。model: llama")
    );
    assert_eq!(thinking_notice(ThinkingMode::PromptToken, "gemma4"), None);
}

#[test]
fn instructions_name_the_end_marker() {
    assert!(AGENT_PREAMBLE.contains(END_MARKER));
    assert!(AGENT_PREAMBLE.starts_with("\nあなたは無機材料の秤量計算を支援する"));
    assert_eq!(TAIL_BYTES, END_MARKER.len() - 1);
}

#[test]
fn guesses_common_ambiguous_material_names() {
    assert_eq!(guess_material_formula("LFP").as_deref(), Some("LiFePO4"));
    assert_eq!(
        guess_material_formula("NMC111").as_deref(),
        Some("LiNi1/3Co1/3Mn1/3O2")
    );
    assert_eq!(
        guess_material_formula("LATP").as_deref(),
        Some("Li1.3Al0.3Ti1.7(PO4)3")
    );
    assert_eq!(guess_material_formula("unknown"), None);
}

#[test]
fn guesses_are_formulas() {
    for name in ["lfp", "nmc111", "nmc 532", "NMC-622", "nmc_811", "latp", " LLZO ", "L-G P_S"] {
        let formula = guess_material_formula(name).unwrap();
        let compound = parse_compound::<Binary64>(&formula).unwrap();
        assert_eq!(compound.formula, formula);
        assert!(is_inorganic_material_like(&compound));
    }
    for name in ["NMC532", "nmc532", "-n m_c532 ", "_NMC 5-3-2_"] {
        assert_eq!(guess_material_formula(name).as_deref(), Some("LiNi0.5Co0.3Mn0.2O2"));
    }
    assert_eq!(
        guess_material_formula("LiNi1/3Co1/3Mn1/3O2").as_deref(),
        Some("LiNi1/3Co1/3Mn1/3O2")
    );
    assert_eq!(guess_material_formula("nmc\t111"), None);
}

#[test]
fn recognizes_confirmations() {
    for input in ["ok", " OK! ", "Yes.", "y", "はい。", "「はい」"] {
        assert_eq!(is_confirmation_only(input), input != "「はい」", "{input}");
    }
    for input in ["それでOK", "それでよい、", "それで良い。", "それでいい"] {
        assert!(is_confirmation_only(input), "{input}");
    }
    for input in ["", "ok ok", "いいえ", "Li2O"] {
        assert!(!is_confirmation_only(input), "{input}");
    }
}

#[test]
fn finds_formulas() {
    let formulas = extract_valid_formulas::<Binary64>;
    assert_eq!(formulas("Li2S, GeS2、P2S5"), ["Li2S", "GeS2", "P2S5"]);
    assert_eq!(formulas("「Li2O」と Li2O; (Fe) **NiO**"), ["Li2O", "NiO"]);
    assert_eq!(formulas("Ca(OH)2: 1g"), ["Ca(OH)2"]);
    assert_eq!(formulas("Li2O Fe Li2O"), ["Li2O", "Fe"]);
    assert!(formulas("no formula, 10 g").is_empty());
    assert!(formulas("").is_empty());
}

#[test]
fn finds_the_same_formulas_in_their_list() {
    let formulas = extract_valid_formulas::<Binary64>;
    for input in [
        "Li2S, GeS2、P2S5",
        "「Li2O」と Li2O; (Fe) **NiO** Ca(OH)2: _Fe_",
        "LiNi1/3Co1/3Mn1/3O2\u{3000}OK",
        "",
    ] {
        let found = formulas(input);
        assert_eq!(formulas(&found.join(", ")), found, "{input}");
    }
}

#[test]
fn finds_the_formulas_of_two_texts_one_after_the_other() {
    let formulas = extract_valid_formulas::<Binary64>;
    let first = "Li2S と GeS2, Fe";
    let second = "Fe P2S5、GeS2; NiO";
    for separator in [' ', ',', '、', '\n'] {
        let both = formulas(&format!("{first}{separator}{second}"));
        assert_eq!(both, ["Li2S", "GeS2", "Fe", "P2S5", "NiO"], "{separator:?}");
    }
    assert_eq!(formulas(first), ["Li2S", "GeS2", "Fe"]);
    assert_eq!(formulas(second), ["Fe", "P2S5", "GeS2", "NiO"]);
}

#[test]
fn finds_masses() {
    let mass = extract_mass_g::<Binary64>;
    assert_eq!(mass("LiFePO4 を 2.5g"), Some(2.5));
    assert_eq!(mass("(3G)."), Some(3.0));
    assert_eq!(mass("5mg 7g"), Some(7.0));
    assert_eq!(mass("500mg"), None);
    assert_eq!(mass("g"), None);
    assert_eq!(mass("0g 1g"), Some(1.0));
    assert_eq!(mass("-1g"), Some(1.0));
    assert_eq!(mass("infg"), None);
    assert_eq!(mass(" 4.5 "), Some(4.5));
    assert_eq!(mass("inf"), Some(f64::INFINITY));
    assert_eq!(mass("0"), None);
    assert_eq!(mass("1 g"), None);
    assert_eq!(mass("text"), None);
}

#[test]
fn wraps_inputs() {
    let mut state: ConversationState<f64> = ConversationState::default();
    assert_eq!(
        state.wrap_user_input::<Binary64>("hello"),
        "[現在の状態]\n目的組成: 未確定\n目標質量_g: 未確定\n原料組成: 未確定\n\n[ユーザー入力]\nhello"
    );
    state.target_formula = Some("FeS".to_string());
    state.target_mass_g = Some(2.5);
    state.precursor_formulas = strings(&["Fe", "S"]);
    assert_eq!(
        state.wrap_user_input::<Binary64>("go"),
        "[現在の状態]\n目的組成: FeS\n目標質量_g: 2.5\n原料組成: Fe, S\n\n[ユーザー入力]\ngo"
    );
}

fn asked(session: &mut WeighingSession<f64>, line: &str) -> bool {
    matches!(session.take_turn::<Binary64>(line), Reply::Ask(_))
}

#[test]
fn settles_target_mass_and_precursors() {
    let mut session: WeighingSession<f64> = WeighingSession::new();
    assert!(asked(&mut session, "Li2O, Fe"));
    assert_eq!(session.state.target_formula.as_deref(), Some("Li2O"));
    assert!(session.state.precursor_formulas.is_empty());

    assert!(asked(&mut session, "Fe"));
    assert_eq!(session.state.target_formula.as_deref(), Some("Li2O"));
    assert!(session.state.precursor_formulas.is_empty());

    assert!(asked(&mut session, "2.5g"));
    assert_eq!(session.state.target_mass_g, Some(2.5));

    assert!(asked(&mut session, "Li2O, Li, O2"));
    assert_eq!(session.state.precursor_formulas, ["Li", "O2"]);

    assert!(asked(&mut session, "Li2O"));
    assert_eq!(session.state.precursor_formulas, ["Li", "O2"]);

    match session.take_turn::<Binary64>("Li2CO3") {
        Reply::Ask(prompt) => assert_eq!(
            prompt,
            "[現在の状態]\n目的組成: Li2O\n目標質量_g: 2.5\n原料組成: Li2CO3\n\n[ユーザー入力]\nLi2CO3"
        ),
        _ => panic!("the line is passed on"),
    }
}

#[test]
fn a_confirmation_takes_the_suggestions() {
    let mut session: WeighingSession<f64> = WeighingSession::new();
    session.update_last_suggestions::<Binary64>("例: Li2S, GeS2, P2S5");
    session.update_last_suggestions::<Binary64>("Li2Sだけ Li2S");
    assert_eq!(session.last_suggested_formulas, ["Li2S", "GeS2", "P2S5"]);
    session.update_state_from_user_input::<Binary64>("OK");
    assert_eq!(session.state.precursor_formulas, ["Li2S", "GeS2", "P2S5"]);
    assert_eq!(session.state.target_formula, None);

    session.update_last_suggestions::<Binary64>("Fe, S");
    session.update_state_from_user_input::<Binary64>("OK");
    assert_eq!(session.state.precursor_formulas, ["Li2S", "GeS2", "P2S5"]);
    assert_eq!(session.state.target_formula, None);
    assert_eq!(session.state.target_mass_g, None);
    assert_eq!(session.last_suggested_formulas, ["Fe", "S"]);
}

#[test]
fn a_confirmation_without_a_suggestion_settles_nothing() {
    let mut session: WeighingSession<f64> = WeighingSession::new();
    session.update_state_from_user_input::<Binary64>("OK");
    assert_eq!(session.state.target_formula, None);

    session.state.target_formula = Some("LaCoO3".to_string());
    session.state.target_mass_g = Some(10.0);
    session.update_state_from_user_input::<Binary64>("OK");
    assert!(session.state.precursor_formulas.is_empty());
    assert_eq!(session.state.target_formula.as_deref(), Some("LaCoO3"));
    assert_eq!(session.state.target_mass_g, Some(10.0));

    session.update_last_suggestions::<Binary64>("La2O3, Co3O4, O2");
    session.update_state_from_user_input::<Binary64>("OK");
    assert_eq!(session.state.precursor_formulas, ["La2O3", "Co3O4", "O2"]);

    assert!(asked(&mut session, "OK"));
    assert_eq!(session.state.precursor_formulas, ["La2O3", "Co3O4", "O2"]);
}

#[test]
fn an_element_that_reads_as_a_confirmation_can_be_the_target() {
    let mut session: WeighingSession<f64> = WeighingSession::new();
    assert!(is_confirmation_only("Y"));
    session.update_state_from_user_input::<Binary64>("Y");
    assert_eq!(session.state.target_formula.as_deref(), Some("Y"));
    assert_eq!(session.state.target_mass_g, None);
    assert!(session.state.precursor_formulas.is_empty());

    session.state.target_mass_g = Some(10.0);
    session.state.target_formula = Some("Y2O3".to_string());
    session.update_state_from_user_input::<Binary64>("Y");
    assert_eq!(session.state.target_formula.as_deref(), Some("Y2O3"));
    assert!(session.state.precursor_formulas.is_empty());

    let mut session: WeighingSession<f64> = WeighingSession::new();
    session.update_state_from_user_input::<Binary64>("y");
    assert_eq!(session.state.target_formula, None);
    session.update_last_suggestions::<Binary64>("Y, O2");
    session.update_state_from_user_input::<Binary64>("Y");
    assert_eq!(session.state.target_formula, None);
    assert_eq!(session.state.precursor_formulas, ["Y", "O2"]);
    session.update_state_from_user_input::<Binary64>("Y.");
    assert_eq!(session.state.target_formula, None);
    session.update_state_from_user_input::<Binary64>("Y!");
    assert_eq!(session.state.target_formula.as_deref(), Some("Y"));
    assert_eq!(session.state.precursor_formulas, ["Y", "O2"]);
}

#[test]
fn a_name_becomes_a_suggestion() {
    let mut session: WeighingSession<f64> = WeighingSession::new();
    session.update_state_from_user_input::<Binary64>("lfp");
    assert_eq!(session.last_suggested_formulas, ["LiFePO4"]);
    assert_eq!(session.state.target_formula, None);
}

#[test]
fn handles_commands() {
    assert_eq!(handle_local_command(" /quit "), Some(LocalCommand::Quit));
    assert_eq!(handle_local_command("/exit"), Some(LocalCommand::Quit));
    assert_eq!(handle_local_command("/clear"), Some(LocalCommand::Clear));
    assert_eq!(handle_local_command("/help"), None);
    let mut session: WeighingSession<f64> = WeighingSession::new();
    assert!(matches!(session.take_turn::<Binary64>(" \u{3000}"), Reply::Ignore));
    assert!(matches!(session.take_turn::<Binary64>("/exit"), Reply::Leave));
    assert!(matches!(session.take_turn::<Binary64>("/clear"), Reply::ClearScreen));
    assert_eq!(take_line(" a b\n"), ("a b".to_string(), true));
    assert_eq!(take_line(" \t"), (String::new(), false));
}

#[test]
fn takes_out_marks() {
    assert_eq!(sanitize_assistant_text("**Li2S** and __x__"), "Li2S and x");
    assert_eq!(sanitize_assistant_text("```rust```"), "rust");
    assert_eq!(sanitize_assistant_text("***"), "*");
    assert_eq!(sanitize_assistant_text("_**_"), "");
    assert_eq!(sanitize_assistant_text("plain * _ ``"), "plain * _ ``");
    assert_eq!(sanitize_assistant_text("*__*"), "**");
    assert_eq!(sanitize_assistant_text("`````"), "``");
}

#[test]
fn drops_lines_that_repeat_an_equation() {
    let mut muted = false;
    let mut held = String::new();
    let text = "a\n反応式: A -> B\nb\nc";
    let shown = filter_duplicate_reaction_line(text, true, &mut muted, &mut held);
    assert_eq!(shown, "a\nb\n");
    assert_eq!(held, "c");
    assert!(!muted);
    assert_eq!(flush_duplicate_reaction_line_buffer(&mut held), "c");
    assert_eq!(held, "");

    let shown = filter_duplicate_reaction_line("x 反応", true, &mut muted, &mut held);
    assert_eq!((shown.as_str(), held.as_str(), muted), ("", "x 反応", false));
    let shown = filter_duplicate_reaction_line("式 rest", true, &mut muted, &mut held);
    assert_eq!((shown.as_str(), held.as_str(), muted), ("", "", true));
    let shown = filter_duplicate_reaction_line("\nnext\n", true, &mut muted, &mut held);
    assert_eq!((shown.as_str(), held.as_str(), muted), ("next\n", "", false));
}

#[test]
fn filters_nothing_before_an_equation_was_shown() {
    let mut muted = false;
    let mut held = String::new();
    let shown = filter_duplicate_reaction_line("反応式: A", false, &mut muted, &mut held);
    assert_eq!(shown, "反応式: A");
    assert_eq!(held, "");
    let mut held = "反応式".to_string();
    assert_eq!(flush_duplicate_reaction_line_buffer(&mut held), "");
    assert_eq!(held, "");
}

#[test]
fn pieces_do_not_matter_to_the_filter() {
    let text = "one\ntwo 反応式 x\nthree\n反応式\nfour";
    let chars: Vec<char> = text.chars().collect();
    for cut in 0..=chars.len() {
        let first: String = chars[..cut].iter().collect();
        let second: String = chars[cut..].iter().collect();
        let mut muted = false;
        let mut held = String::new();
        let mut shown = filter_duplicate_reaction_line(&first, true, &mut muted, &mut held);
        shown.push_str(&filter_duplicate_reaction_line(&second, true, &mut muted, &mut held));
        assert_eq!((shown.as_str(), held.as_str()), ("one\nthree\n", "four"));
    }
}

#[test]
fn the_filter_goes_on_from_where_it_stands() {
    for (held_before, muted_before, shown, held_after, muted_after) in [
        ("x 反", false, "b\n", "反", false),
        ("x ", false, "x 応式 a\nb\n", "反", false),
        ("", true, "b\n", "反", false),
    ] {
        let mut held = held_before.to_string();
        let mut muted = muted_before;
        let text = "応式 a\nb\n反";
        assert_eq!(filter_duplicate_reaction_line(text, true, &mut muted, &mut held), shown);
        assert_eq!((held.as_str(), muted), (held_after, muted_after));
    }
    let mut held = "x".to_string();
    let mut muted = false;
    assert_eq!(filter_duplicate_reaction_line("y\n反応式", true, &mut muted, &mut held), "xy\n");
    assert_eq!((held.as_str(), muted), ("", true));
}

#[test]
fn counts_thoughts() {
    assert_eq!(reasoning_text_len(&strings(&["考え", "abc", ""])), 5);
    assert_eq!(reasoning_text_len(&Vec::new()), 0);
    let mut count = 7;
    let mut showing = false;
    assert_eq!(
        update_thinking_indicator(5, &mut count, &mut showing),
        "\r\x1b[2K\x1b[5mThinking... (12 chars)\x1b[0m"
    );
    assert_eq!((count, showing), (12, true));
    assert_eq!(clear_thinking_indicator(&mut showing), "\r\x1b[2K");
    assert_eq!(clear_thinking_indicator(&mut showing), "");
}

#[test]
fn holds_back_what_may_be_a_marker() {
    let mut pending = "short".to_string();
    assert_eq!(flush_visible_stream_text(&mut pending, false), "");
    assert_eq!(pending, "short");

    let mut pending = "hello, wonderful world".to_string();
    assert_eq!(flush_visible_stream_text(&mut pending, false), "hello, ");
    assert_eq!(pending, "wonderful world");

    let mut pending = "あいうえおか".to_string();
    assert_eq!(flush_visible_stream_text(&mut pending, false), "あ");
    assert_eq!(pending, "いうえおか");

    let mut pending = "あいうえaおか".to_string();
    assert_eq!(flush_visible_stream_text(&mut pending, false), "あい");
    assert_eq!(pending, "うえaおか");

    let mut pending = "done".to_string();
    assert_eq!(flush_visible_stream_text(&mut pending, true), "done");
    assert_eq!(pending, "");

    let mut pending = "bye [[END_WORKFLOW]] more [[END_WORKFLOW]]".to_string();
    assert_eq!(flush_visible_stream_text(&mut pending, false), "bye ");
    assert_eq!(pending, "");
}

#[test]
fn shows_all_text_up_to_the_marker_however_it_is_cut() {
    let text = "終わりです😀[[END_[[END_WORKFLOW]]";
    let chars: Vec<char> = text.chars().collect();
    for step in 1..=chars.len() {
        let mut pending = String::new();
        let mut shown = String::new();
        for piece in chars.chunks(step) {
            pending.extend(piece);
            shown.push_str(&flush_visible_stream_text(&mut pending, false));
        }
        assert_eq!(shown, "終わりです😀[[END_", "{step}");
        assert_eq!(pending, "");
    }
}

#[test]
fn takes_equations_once() {
    let mut shown = Vec::new();
    let equation = Some("Fe + S -> FeS".to_string());
    assert_eq!(take_equation(Some(false), equation.clone(), &mut shown), None);
    assert_eq!(take_equation(None, equation.clone(), &mut shown), None);
    assert_eq!(take_equation(Some(true), None, &mut shown), None);
    assert_eq!(take_equation(Some(true), Some(String::new()), &mut shown), None);
    assert!(shown.is_empty());
    assert_eq!(take_equation(Some(true), equation.clone(), &mut shown), equation);
    assert_eq!(shown, ["Fe + S -> FeS"]);
    assert_eq!(take_equation(Some(true), equation, &mut shown), None);
}

#[test]
fn reads_equations_from_tool_results() {
    let mut shown = Vec::new();
    let contents = strings(&[
        "no json",
        "[1]",
        "{\"ok\": false, \"reaction_equation\": \"x\"}",
        "{\"ok\": 1, \"reaction_equation\": \"x\"}",
        "{\"ok\": true, \"reaction_equation\": null}",
        "{\"ok\": true, \"reaction_equation\": \"Fe + S -> \\u0046eS\"}",
        "{\"ok\": true, \"reaction_equation\": \"later\"}",
    ]);
    assert_eq!(
        reaction_equation_from_tool_result(&contents, &mut shown).as_deref(),
        Some("Fe + S -> FeS")
    );
    assert_eq!(
        reaction_equation_from_tool_result(&contents, &mut shown).as_deref(),
        Some("later")
    );
    assert_eq!(reaction_equation_from_tool_result(&contents, &mut shown), None);
}

#[test]
fn follows_an_answer() {
    let mut state = StreamState::new();
    let step = state.step(StreamEvent::Reasoning(strings(&["ab", "c"])));
    assert_eq!(step.output, "\r\x1b[2K\x1b[5mThinking... (3 chars)\x1b[0m");
    let step = state.step(StreamEvent::ReasoningDelta("de".to_string()));
    assert_eq!(step.output, "\r\x1b[2K\x1b[5mThinking... (5 chars)\x1b[0m");
    let step = state.step(StreamEvent::Text("**計算**します".to_string()));
    assert_eq!(step.output, "\r\x1b[2K");
    assert_eq!(step.end, None);
    let result = "{\"ok\": true, \"reaction_equation\": \"A -> B\"}";
    let step = state.step(StreamEvent::ToolResult(strings(&[result])));
    assert_eq!(step.output, "計算します\n反応式: A -> B\n");
    let step = state.step(StreamEvent::ToolResult(strings(&[result])));
    assert_eq!(step.output, "");
    let step = state.step(StreamEvent::Other);
    assert_eq!(step.output, "");
    let step = state.step(StreamEvent::Text("反応式: A -> B\n結果".to_string()));
    assert_eq!(step.output, "");
    let step = state.step(StreamEvent::FinalResponse("x [[END_WORKFLOW]]".to_string()));
    assert_eq!(step.output, "");
    let step = state.step(StreamEvent::Ended);
    assert_eq!(step.output, "結果\n");
    assert_eq!(step.end, Some(true));
    assert_eq!(state.response_text, "**計算**します反応式: A -> B\n結果");
}

#[test]
fn ends_an_answer_without_text() {
    let mut state = StreamState::new();
    assert_eq!(state.step(StreamEvent::Text("[[END_WORKFLOW".to_string())).output, "");
    assert_eq!(state.step(StreamEvent::Text("]]".to_string())).output, "");
    state.step(StreamEvent::FinalResponse("[[END_WORKFLOW]]".to_string()));
    let step = state.step(StreamEvent::Ended);
    assert_eq!(step.output, "終了します。\n");
    assert_eq!(step.end, Some(true));

    let mut state = StreamState::new();
    let step = state.step(StreamEvent::Ended);
    assert_eq!(step.output, "");
    assert_eq!(step.end, Some(false));
}

#[test]
fn gives_up_on_an_answer() {
    let mut state = StreamState::new();
    state.step(StreamEvent::ReasoningDelta("x".to_string()));
    let step = state.step(StreamEvent::OutOfTime);
    assert_eq!(
        step.output,
        "\r\x1b[2K応答が長時間完了しなかったため中断しました。もう一度、化学式のリストを具体的に入力してください。\n"
    );
    assert_eq!(step.end, Some(false));
    let step = state.step(StreamEvent::Stalled);
    assert_eq!(
        step.output,
        "応答が停止したため中断しました。もう一度、化学式のリストを具体的に入力してください。\n"
    );
    assert_eq!(step.end, Some(false));
}

#[test]
fn classifies_every_character_as_std_does() {
    for c in '\0'..=char::MAX {
        assert_eq!(is_white_space(c), c.is_whitespace(), "{c:?}");
        assert_eq!(is_ascii_digit(c), c.is_ascii_digit(), "{c:?}");
        assert_eq!(is_ascii_uppercase(c), c.is_ascii_uppercase(), "{c:?}");
        assert_eq!(is_ascii_lowercase(c), c.is_ascii_lowercase(), "{c:?}");
        assert_eq!(is_ascii_punctuation(c), c.is_ascii_punctuation(), "{c:?}");
    }
}

#[test]
fn works_on_texts_as_std_does() {
    for text in ["", " \u{a0}a b\u{3000}", "Mixed ÄÖ CASE", "  "] {
        let chars = chars_of(text);
        assert_eq!(string_of(&chars), text);
        assert_eq!(string_of(&trim_chars(&chars)), text.trim());
        assert_eq!(string_of(&to_lower_case(&chars)), text.to_ascii_lowercase());
    }
    assert_eq!(find_chars(&chars_of("abcabc"), &chars_of("ca")), Some(2));
    assert_eq!(find_chars(&chars_of("abc"), &chars_of("cb")), None);
    assert_eq!(join_strings(&strings(&["a", "b", "c"]), ", "), "a, b, c");
    assert!(comes_before("Li", "Li2"));
    assert!(comes_before("Z", "a"));
    assert!(!comes_before("a", "a"));
    let mut list = Vec::new();
    for text in ["b", "あ", "a", "b", "Z"] {
        insert_text(&mut list, text);
    }
    assert_eq!(list, ["Z", "a", "b", "あ"]);
    let mut text = String::from("n=");
    append_decimal(&mut text, 10240);
    append_decimal(&mut text, 0);
    assert_eq!(text, "n=102400");
    assert_eq!(parse_unsigned(&chars_of("+0018446744073709551615")), Some(u64::MAX));
    assert_eq!(parse_unsigned(&chars_of("18446744073709551616")), None);
    assert_eq!(parse_unsigned(&chars_of("+")), None);
    assert_eq!(parse_unsigned(&chars_of("1_0")), None);
}
