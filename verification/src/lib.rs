//! A verified assistant for weighing the starting materials of inorganic syntheses.
pub mod advice;
pub mod agent_config;
pub mod arithmetic;
pub mod bracket_laws;
pub mod calculation;
pub mod conversation;
pub mod conversation_laws;
pub mod elements;
pub mod equation;
pub mod formula;
pub mod formula_laws;
pub mod json;
pub mod material_laws;
pub mod presence;
pub mod prompt;
pub mod session;
pub mod solver;
pub mod solver_laws;
pub mod streaming;
pub mod streaming_laws;
pub mod symbol_laws;
pub mod text;
pub mod tools;
pub mod weighing;
pub mod weighing_laws;
