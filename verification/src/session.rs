//! A conversation, turn by turn.

use vstd::prelude::*;

use crate::arithmetic::{lawful, Arithmetic};
use crate::conversation::{confirmation, extract_mass_g, extract_valid_formulas, guess_material_formula, is_confirmation_only, mass_in, named_material, nothing_settled, plain_name, valid_formulas, wrapped, ConversationState, Settled};
use crate::elements::{atomic_weight, weight_fraction};
use crate::text::{chars_of, is_text, string_of, texts, trim, trim_chars};

verus! {

/// What a session has settled, and the formulas that were suggested last.
pub struct WeighingSession<N> {
    pub state: ConversationState<N>,
    pub last_suggested_formulas: Vec<String>,
}

/// What a [`WeighingSession`] says.
pub struct Dialog<N> {
    pub settled: Settled<N>,
    pub suggested: Seq<Seq<char>>,
}

impl<N> View for WeighingSession<N> {
    type V = Dialog<N>;

    open spec fn view(&self) -> Dialog<N> {
        Dialog { settled: self.state@, suggested: texts(self.last_suggested_formulas@) }
    }
}

/// What clears the screen of a terminal.
pub const CLEAR_SCREEN: &'static str = "\x1b[2J\x1b[H";

/// What to do about a line that the user entered.
pub enum Reply {
    /// Nothing: the line is blank.
    Ignore,
    /// End the conversation.
    Leave,
    /// Clear the screen.
    ClearScreen,
    /// Pass a prompt on to the model.
    Ask(String),
}

/// What a [`Reply`] says.
pub enum Reaction {
    Ignore,
    Leave,
    ClearScreen,
    Ask(Seq<char>),
}

impl View for Reply {
    type V = Reaction;

    open spec fn view(&self) -> Reaction {
        match *self {
            Reply::Ignore => Reaction::Ignore,
            Reply::Leave => Reaction::Leave,
            Reply::ClearScreen => Reaction::ClearScreen,
            Reply::Ask(prompt) => Reaction::Ask(prompt@),
        }
    }
}

/// The commands that are carried out without the model.
#[derive(Debug, Clone, Copy, PartialEq, Eq)]
pub enum LocalCommand {
    Quit,
    Clear,
}

/// The command that an input gives, if it gives one.
pub open spec fn command_in(input: Seq<char>) -> Option<LocalCommand> {
    if trim(input) == "/quit"@ || trim(input) == "/exit"@ {
        Some(LocalCommand::Quit)
    } else if trim(input) == "/clear"@ {
        Some(LocalCommand::Clear)
    } else {
        None
    }
}

/// Recognizes a command that is carried out without the model.
pub fn handle_local_command(input: &str) -> (command: Option<LocalCommand>)
    ensures
        command == command_in(input@),
{
    let chars: Vec<char> = trim_chars(&chars_of(input));
    if is_text(&chars, "/quit") || is_text(&chars, "/exit") {
        Some(LocalCommand::Quit)
    } else if is_text(&chars, "/clear") {
        Some(LocalCommand::Clear)
    } else {
        None
    }
}

/// Takes a line that was entered: the text without white space at its ends, and whether the line
/// is worth remembering.
pub fn take_line(line: &str) -> (r: (String, bool))
    ensures
        r.0@ == trim(line@),
        r.1 == (trim(line@).len() > 0),
{
    let chars: Vec<char> = trim_chars(&chars_of(line));
    (string_of(&chars), chars.len() > 0)
}

/// The formulas other than that of the target.
pub open spec fn others(formulas: Seq<Seq<char>>, target: Option<Seq<char>>) -> Seq<Seq<char>> {
    formulas.filter(|formula: Seq<char>| Some(formula) != target)
}

/// What is settled and suggested after an input that is not a mere confirmation, apart from the
/// mass.
pub open spec fn with_formulas<A: Arithmetic>(
    dialog: Dialog<A::Number>,
    input: Seq<char>,
) -> Dialog<A::Number> {
    let formulas = valid_formulas::<A>(input);
    let settled = dialog.settled;
    if settled.target is None {
        if formulas.len() > 0 {
            Dialog { settled: Settled { target: Some(formulas[0]), ..settled }, ..dialog }
        } else {
            match named_material(plain_name(input)) {
                Some(formula) => Dialog { suggested: seq![formula], ..dialog },
                None => dialog,
            }
        }
    } else if settled.mass is Some && others(formulas, settled.target).len() > 0 {
        Dialog {
            settled: Settled { precursors: others(formulas, settled.target), ..settled },
            ..dialog
        }
    } else {
        dialog
    }
}

/// Whether an input accepts the formulas that were suggested as precursors.
pub open spec fn accepts<N>(dialog: Dialog<N>, input: Seq<char>) -> bool {
    confirmation(input) && dialog.settled.precursors.len() == 0 && dialog.suggested.len() > 0
}

/// Whether an input names a target where none is settled, though it can be read as a confirmation
/// too: `Y` is the symbol of an element.
pub open spec fn names_element<A: Arithmetic>(dialog: Dialog<A::Number>, input: Seq<char>) -> bool {
    &&& dialog.settled.target is None
    &&& valid_formulas::<A>(input).len() > 0
    &&& weight_fraction(valid_formulas::<A>(input)[0]) is Some
}

/// What is settled and suggested after an input. A mere confirmation settles nothing but the
/// formulas that were suggested, unless it names an element where a target is wanted.
pub open spec fn after_input<A: Arithmetic>(
    dialog: Dialog<A::Number>,
    input: Seq<char>,
) -> Dialog<A::Number> {
    if accepts(dialog, input) {
        Dialog {
            settled: Settled { precursors: dialog.suggested, ..dialog.settled },
            ..dialog
        }
    } else if confirmation(input) && !names_element::<A>(dialog, input) {
        dialog
    } else {
        let next = with_formulas::<A>(dialog, input);
        match mass_in::<A>(input) {
            Some(mass) => Dialog { settled: Settled { mass: Some(mass), ..next.settled }, ..next },
            None => next,
        }
    }
}

/// What is settled and suggested after an answer: an answer with two formulas or more is taken for
/// a suggestion.
pub open spec fn after_answer<A: Arithmetic>(
    dialog: Dialog<A::Number>,
    answer: Seq<char>,
) -> Dialog<A::Number> {
    if valid_formulas::<A>(answer).len() >= 2 {
        Dialog { suggested: valid_formulas::<A>(answer), ..dialog }
    } else {
        dialog
    }
}

/// What is settled after a line, and what to do about it.
pub open spec fn turn<A: Arithmetic>(dialog: Dialog<A::Number>, line: Seq<char>) -> (
    Dialog<A::Number>,
    Reaction,
) {
    if trim(line).len() == 0 {
        (dialog, Reaction::Ignore)
    } else {
        match command_in(line) {
            Some(LocalCommand::Quit) => (dialog, Reaction::Leave),
            Some(LocalCommand::Clear) => (dialog, Reaction::ClearScreen),
            None => {
                let next = after_input::<A>(dialog, line);
                (next, Reaction::Ask(wrapped::<A>(next.settled, line)))
            },
        }
    }
}

fn copy_list(list: &Vec<String>) -> (copy: Vec<String>)
    ensures
        texts(copy@) == texts(list@),
{
    let mut copy: Vec<String> = Vec::new();
    for i in 0..list.len()
        invariant
            texts(copy@) == texts(list@).take(i as int),
    {
        let ghost before = copy@;
        let text: String = list[i].clone();
        copy.push(text);
        assert(texts(copy@) == texts(before).push(text@));
        assert(texts(list@).take(i + 1) == texts(list@).take(i as int).push(text@));
    }
    assert(texts(list@).take(list@.len() as int) == texts(list@));
    copy
}

fn without_target(formulas: &Vec<String>, target: &String) -> (rest: Vec<String>)
    ensures
        texts(rest@) == others(texts(formulas@), Some(target@)),
{
    let ghost all = texts(formulas@);
    let ghost keep = |formula: Seq<char>| Some(formula) != Some(target@);
    let chars: Vec<char> = chars_of(target.as_str());
    let mut rest: Vec<String> = Vec::new();
    proof {
        reveal(Seq::filter);
        assert(texts(rest@) == all.take(0).filter(keep));
    }
    for i in 0..formulas.len()
        invariant
            all == texts(formulas@),
            keep == (|formula: Seq<char>| Some(formula) != Some(target@)),
            chars@ == target@,
            texts(rest@) == all.take(i as int).filter(keep),
    {
        proof {
            reveal(Seq::filter);
            assert(all.take(i + 1).drop_last() == all.take(i as int));
            assert(all.take(i + 1).last() == formulas@[i as int]@);
        }
        if !is_text(&chars, formulas[i].as_str()) {
            let ghost before = rest@;
            let formula: String = formulas[i].clone();
            rest.push(formula);
            assert(texts(rest@) == texts(before).push(formula@));
        }
    }
    assert(all.take(all.len() as int) == all);
    rest
}

impl<N: Copy> WeighingSession<N> {
    /// A session in which nothing is settled.
    pub fn new() -> (session: Self)
        ensures
            session@.settled == nothing_settled::<N>(),
            session@.suggested.len() == 0,
    {
        WeighingSession { state: ConversationState::default(), last_suggested_formulas: Vec::new() }
    }

    /// Settles what an input says.
    pub fn update_state_from_user_input<A: Arithmetic<Number = N>>(&mut self, input: &str)
        requires
            lawful::<A>(),
        ensures
            final(self)@ == after_input::<A>(old(self)@, input@),
    {
        let ghost before = self@;
        let confirms: bool = is_confirmation_only(input);
        if confirms && self.state.precursor_formulas.len() == 0
            && self.last_suggested_formulas.len() > 0 {
            self.state.precursor_formulas = copy_list(&self.last_suggested_formulas);
            return ;
        }
        let formulas: Vec<String> = extract_valid_formulas::<A>(input);
        assert(texts(formulas@).len() == formulas@.len());
        if confirms {
            let element: bool = formulas.len() > 0 && atomic_weight::<A>(
                formulas[0].as_str(),
            ).is_some();
            assert(formulas@.len() > 0 ==> texts(formulas@)[0] == formulas@[0]@);
            if !(self.state.target_formula.is_none() && element) {
                return ;
            }
        }
        if self.state.target_formula.is_none() {
            if formulas.len() > 0 {
                assert(texts(formulas@)[0] == formulas@[0]@);
                self.state.target_formula = Some(formulas[0].clone());
            } else {
                match guess_material_formula(input) {
                    Some(formula) => {
                        let mut suggestion: Vec<String> = Vec::new();
                        suggestion.push(formula);
                        assert(texts(suggestion@) == seq![formula@]);
                        self.last_suggested_formulas = suggestion;
                    },
                    None => {},
                }
            }
        } else if self.state.target_mass_g.is_some() {
            let rest: Vec<String> = match &self.state.target_formula {
                Some(target) => without_target(&formulas, target),
                None => Vec::new(),
            };
            assert(texts(rest@).len() == rest@.len());
            if rest.len() > 0 {
                self.state.precursor_formulas = rest;
            }
        }
        assert(self@ == with_formulas::<A>(before, input@));
        match extract_mass_g::<A>(input) {
            Some(mass) => {
                self.state.target_mass_g = Some(mass);
            },
            None => {},
        }
    }

    /// Remembers the formulas that an answer suggests.
    pub fn update_last_suggestions<A: Arithmetic<Number = N>>(&mut self, response_text: &str)
        requires
            lawful::<A>(),
        ensures
            final(self)@ == after_answer::<A>(old(self)@, response_text@),
    {
        let formulas: Vec<String> = extract_valid_formulas::<A>(response_text);
        assert(texts(formulas@).len() == formulas@.len());
        if formulas.len() >= 2 {
            self.last_suggested_formulas = formulas;
        }
    }

    /// Takes a line that the user entered, and decides what to do about it.
    pub fn take_turn<A: Arithmetic<Number = N>>(&mut self, line: &str) -> (reply: Reply)
        requires
            lawful::<A>(),
        ensures
            (final(self)@, reply@) == turn::<A>(old(self)@, line@),
    {
        if trim_chars(&chars_of(line)).len() == 0 {
            return Reply::Ignore;
        }
        match handle_local_command(line) {
            Some(LocalCommand::Quit) => Reply::Leave,
            Some(LocalCommand::Clear) => Reply::ClearScreen,
            None => {
                self.update_state_from_user_input::<A>(line);
                Reply::Ask(self.state.wrap_user_input::<A>(line))
            },
        }
    }
}

/// Law: a line never changes a target, and never takes back a mass or a list of precursors that is
/// settled.
pub proof fn law_nothing_is_taken_back<A: Arithmetic>(dialog: Dialog<A::Number>, line: Seq<char>)
    ensures
        dialog.settled.target is Some ==> turn::<A>(dialog, line).0.settled.target
            == dialog.settled.target,
        dialog.settled.mass is Some ==> turn::<A>(dialog, line).0.settled.mass is Some,
        dialog.settled.precursors.len() > 0 ==> turn::<A>(dialog, line).0.settled.precursors.len()
            > 0,
{
}

/// Law: an answer changes nothing that is settled.
pub proof fn law_answers_settle_nothing<A: Arithmetic>(
    dialog: Dialog<A::Number>,
    answer: Seq<char>,
)
    ensures
        after_answer::<A>(dialog, answer).settled == dialog.settled,
{
}

/// Law: a mere confirmation settles nothing but a suggested list. It takes the formulas that were
/// suggested last if there are any and no precursors are settled yet, and changes nothing
/// otherwise. The one exception is a confirmation that names an element while no target is
/// settled: without a list to take, it settles the target.
pub proof fn law_confirmation_takes_suggestions<A: Arithmetic>(
    dialog: Dialog<A::Number>,
    input: Seq<char>,
)
    requires
        confirmation(input),
    ensures
        ({
            let next = after_input::<A>(dialog, input);
            let formulas = valid_formulas::<A>(input);
            let listed = dialog.settled.precursors.len() == 0 && dialog.suggested.len() > 0;
            let names = dialog.settled.target is None && formulas.len() > 0 && weight_fraction(
                formulas[0],
            ) is Some;
            &&& next.suggested == dialog.suggested
            &&& listed ==> next.settled == (Settled {
                precursors: dialog.suggested,
                ..dialog.settled
            })
            &&& !listed && !names ==> next.settled == dialog.settled
            &&& !listed && names ==> {
                &&& next.settled.target == Some(formulas[0])
                &&& next.settled.precursors == dialog.settled.precursors
                &&& mass_in::<A>(input) is Some ==> next.settled.mass == mass_in::<A>(input)
                &&& mass_in::<A>(input) is None ==> next.settled.mass == dialog.settled.mass
            }
        }),
{
}

/// Law: what an input gives is settled, whatever was settled before. A mass that it gives is the
/// mass from then on; without one, the mass stays. Where no target is settled, the first formula
/// becomes the target, and a name that is known becomes the suggestion if there is no formula.
/// Where target and mass are settled, the formulas other than the target become the precursors.
/// All else stays.
pub proof fn law_input_is_settled<A: Arithmetic>(dialog: Dialog<A::Number>, input: Seq<char>)
    requires
        !confirmation(input),
    ensures
        ({
            let next = after_input::<A>(dialog, input);
            let formulas = valid_formulas::<A>(input);
            let before = dialog.settled;
            &&& mass_in::<A>(input) is Some ==> next.settled.mass == mass_in::<A>(input)
            &&& mass_in::<A>(input) is None ==> next.settled.mass == before.mass
            &&& before.target is None && formulas.len() > 0 ==> {
                &&& next.settled.target == Some(formulas[0])
                &&& next.suggested == dialog.suggested
            }
            &&& before.target is None && formulas.len() == 0 ==> {
                &&& next.settled.target is None
                &&& next.suggested == (match named_material(plain_name(input)) {
                    Some(formula) => seq![formula],
                    None => dialog.suggested,
                })
            }
            &&& before.target is Some ==> {
                &&& next.settled.target == before.target
                &&& next.suggested == dialog.suggested
            }
            &&& before.target is Some && before.mass is Some && (exists|i: int|
                0 <= i < formulas.len() && Some(#[trigger] formulas[i]) != before.target)
                ==> next.settled.precursors == formulas.filter(
                |formula: Seq<char>| Some(formula) != before.target,
            )
            &&& before.target is None || before.mass is None || (forall|i: int|
                0 <= i < formulas.len() ==> Some(#[trigger] formulas[i]) == before.target)
                ==> next.settled.precursors == before.precursors
        }),
{
    let formulas = valid_formulas::<A>(input);
    let keep = |formula: Seq<char>| Some(formula) != dialog.settled.target;
    lemma_others(formulas, dialog.settled.target);
    if exists|i: int| 0 <= i < formulas.len() && Some(#[trigger] formulas[i]) != dialog.settled.target {
        let i = choose|i: int|
            0 <= i < formulas.len() && Some(#[trigger] formulas[i]) != dialog.settled.target;
        assert(keep(formulas[i]));
        formulas.lemma_filter_contains(keep, i);
        assert(formulas.filter(keep).contains(formulas[i]));
        assert(others(formulas, dialog.settled.target) == formulas.filter(keep));
        assert(keep =~= (|formula: Seq<char>| Some(formula) != dialog.settled.target));
    } else if others(formulas, dialog.settled.target).len() > 0 {
        let stray = others(formulas, dialog.settled.target)[0];
        let i = choose|i: int| 0 <= i < formulas.len() && formulas[i] == stray;
        assert(Some(formulas[i]) == dialog.settled.target);
    }
}

/// Law: each line is answered. A blank line is ignored; `/quit` and `/exit` end the conversation
/// and `/clear` clears the screen, each with white space around it or without, and nothing that is
/// settled changes. Any other line is settled and passed on, with what is then settled in front of
/// it.
pub proof fn law_lines_are_answered<A: Arithmetic>(dialog: Dialog<A::Number>, line: Seq<char>)
    ensures
        ({
            let (next, reaction) = turn::<A>(dialog, line);
            let text = trim(line);
            &&& text.len() == 0 ==> reaction is Ignore && next == dialog
            &&& text == "/quit"@ || text == "/exit"@ ==> reaction is Leave && next == dialog
            &&& text == "/clear"@ ==> reaction is ClearScreen && next == dialog
            &&& text.len() > 0 && text != "/quit"@ && text != "/exit"@ && text != "/clear"@ ==> {
                &&& next == after_input::<A>(dialog, line)
                &&& reaction == Reaction::Ask(wrapped::<A>(next.settled, line))
            }
        }),
{
    reveal_strlit("/quit");
    reveal_strlit("/exit");
    reveal_strlit("/clear");
    assert("/clear"@[1] == 'c');
    assert("/quit"@[1] == 'q');
    assert("/exit"@[1] == 'e');
}

/// Law: an answer with two formulas or more is the suggestion from then on, all its formulas in
/// order; any other answer leaves the suggestion as it was.
pub proof fn law_answers_suggest<A: Arithmetic>(dialog: Dialog<A::Number>, answer: Seq<char>)
    ensures
        valid_formulas::<A>(answer).len() >= 2 ==> after_answer::<A>(dialog, answer).suggested
            == valid_formulas::<A>(answer),
        valid_formulas::<A>(answer).len() < 2 ==> after_answer::<A>(dialog, answer).suggested
            == dialog.suggested,
{
}

proof fn lemma_others(formulas: Seq<Seq<char>>, target: Option<Seq<char>>)
    ensures
        forall|i: int|
            0 <= i < others(formulas, target).len() ==> Some(
                #[trigger] others(formulas, target)[i],
            ) != target && formulas.contains(others(formulas, target)[i]),
    decreases formulas.len(),
{
    reveal(Seq::filter);
    if formulas.len() > 0 {
        let front = formulas.drop_last();
        lemma_others(front, target);
        let now = others(formulas, target);
        let before = others(front, target);
        assert forall|i: int| 0 <= i < now.len() implies Some(#[trigger] now[i]) != target
            && formulas.contains(now[i]) by {
            if i < before.len() {
                assert(now[i] == before[i]);
                let k = choose|k: int| 0 <= k < front.len() && front[k] == before[i];
                assert(formulas[k] == now[i]);
            } else {
                assert(formulas[formulas.len() - 1] == now[i]);
            }
        }
    }
}

/// Law: precursors are only listed after a target and its mass, unless a suggestion is accepted;
/// and a list that is read from an input does not hold the target.
pub proof fn law_precursors_come_last<A: Arithmetic>(dialog: Dialog<A::Number>, input: Seq<char>)
    requires
        !accepts(dialog, input),
        after_input::<A>(dialog, input).settled.precursors != dialog.settled.precursors,
    ensures
        dialog.settled.target is Some,
        dialog.settled.mass is Some,
        dialog.settled.target matches Some(target) ==> !after_input::<A>(
            dialog,
            input,
        ).settled.precursors.contains(target),
        forall|i: int|
            0 <= i < after_input::<A>(dialog, input).settled.precursors.len()
                ==> valid_formulas::<A>(input).contains(
                #[trigger] after_input::<A>(dialog, input).settled.precursors[i],
            ),
{
    lemma_others(valid_formulas::<A>(input), dialog.settled.target);
}

} // verus!
