//! The decisions of a multi-turn LLM agent loop: send the conversation to the
//! model, collect the reply's parts, run (or refuse) the tool calls it asks
//! for, feed the results back, and repeat.

pub mod agent;
pub mod hook;
pub mod types;

pub use agent::{
    append_turn, build_messages, Action, AgentOutput, AgentRun, Event, LoopError, Stage, TurnReport,
    DEFAULT_MAX_TURNS,
};
pub use hook::{AllowAll, HookContext, HookDecision, NoObserver, TurnObserver};
pub use types::{ChatMessage, FunctionCall, Part, Response, ToolCall, ToolResult, Usage};
