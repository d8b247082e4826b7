//! Verified decision core of a headless agent harness.

#![allow(unused_imports)]

pub mod capability;
mod clock;
pub mod current_guard;
pub mod digest;
pub mod error;
pub mod items;
pub mod json;
pub mod kernel;
pub mod limits;
pub mod runtime;
pub mod secret;
pub mod shape;
pub mod skill;
pub mod sqlite;
pub mod table;
pub mod text;
pub mod time;
