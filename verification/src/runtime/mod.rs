//! Agent Loop execution, policy settlement, and ordered state recording.

pub mod authorize;
pub mod batch;
pub mod budget;
pub mod continuation;
pub mod control;
pub mod harness;
pub mod journal;
pub mod observe;
pub mod pause;
pub mod policy;
pub mod progress;
pub mod repetition;
pub mod resume;
pub mod resumption;
pub mod route;
pub mod routing;
pub mod start;
pub mod steering;
pub mod tool_run;
pub mod turn;
pub mod validate;
