# weighing_agent

An assistant for weighing the starting materials of inorganic syntheses. It reads chemical
formulas, balances the elements of a reaction, computes how much of each precursor yields a wanted
mass of a target, and leads a conversation with a language model that calls these computations as
tools.

`src/` is the library, verified with Verus. `app/` is the program around it: a chat in the
terminal with a model that Ollama serves.

## The library

| module | what it holds |
| --- | --- |
| `text` | texts as sequences of characters |
| `arithmetic` | what is asked of the numbers, and exact arithmetic for the laws |
| `presence` | arithmetic with none and some, which shows that the demands can be met |
| `elements` | atomic weights |
| `formula`, `formula_laws`, `bracket_laws`, `symbol_laws` | chemical formulas and the compounds that they denote |
| `solver`, `solver_laws` | systems of linear equations with one solution |
| `weighing`, `weighing_laws` | element balance and amounts |
| `equation` | reaction equations in words |
| `calculation` | the whole calculation |
| `advice` | advice on starting materials |
| `tools` | what the tools of the assistant answer |
| `prompt`, `agent_config` | instructions and settings |
| `json` | JSON objects and texts |
| `conversation`, `conversation_laws`, `material_laws` | what an input says |
| `session` | what a conversation has settled, turn by turn |
| `streaming`, `streaming_laws` | an answer that arrives piece by piece |

The numbers are those of a type that implements `Arithmetic`; the program uses `f64`. Contracts say
which operations are applied to which numbers, so they hold of any arithmetic whose operations are
functions of their arguments. What the computations mean is stated over the real numbers. Where the
tolerance decides nothing wrongly (`decisive_balance`), `law_refusals_are_justified` says that
amounts are found exactly where one choice of amounts, and only one, balances the elements and none
of them is negative; `law_elements_balance` and `law_mass_is_conserved` say that the amounts found
balance each element and conserve mass.

What is believed without proof is marked `external_body` or `assume_specification`: the calls of
`serde_json` in `json`, and `String::push` in `text`.

## The program

`OLLAMA_BASE_URL`, `OLLAMA_MODEL` and `OLLAMA_NUM_CTX` set the address of the service, the model and
the length of its context. `/clear` clears the screen; `/quit` and `/exit` end the chat.
