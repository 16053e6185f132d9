//! The core of a tool-using conversational agent: the state machine that
//! drives a language model through think / act / observe steps, the
//! decisions of its tool executor, the context compressor that keeps the
//! conversation under a token ceiling, and the lookup of model context sizes.
pub mod agent;
pub mod compressor;
pub mod input;
pub mod max_context;
pub mod message;
pub mod prompt;
pub mod text;
pub mod tools;
pub mod usage;
