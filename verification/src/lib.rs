pub mod agent_loop;
pub mod capabilities;
pub mod compact;
pub mod conversation;
pub mod harness;
pub mod json;
pub mod loop_control;
pub mod model;
pub mod payloads;
pub mod projection;
pub mod providers;
pub mod stream;
pub mod text;
pub mod tool_executor;
pub mod traits;
