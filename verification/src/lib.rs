//! Persistent agent support: file layout, prompt assembly, heartbeat
//! schedules and keyword-triggered context loading.

pub mod agent;
pub mod clock;
pub mod context_trigger;
pub mod dates;
pub mod heartbeat;
pub mod json;
pub mod paths;
pub mod text;
