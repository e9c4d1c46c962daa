pub mod actions;
pub mod dataflow;
pub mod error;
pub mod execute;
pub mod executors;
pub mod inputs;
pub mod json;
pub mod text;
pub mod time;
pub mod parse;
pub mod periodic;
pub mod pointer;
pub mod scripting;
pub mod state_machine;
pub mod task;
pub mod template;
