//! The decision logic of an agent runtime, with its behaviour stated and proved.

use vstd::prelude::*;

pub mod agent;
pub mod capabilities;
pub mod chat_turns;
pub mod compression;
pub mod docker;
pub mod error;
pub mod events;
pub mod guard;
pub mod hash;
pub mod hook_engine;
pub mod hook_io;
pub mod hooks;
pub mod http;
pub mod ids;
pub mod json;
pub mod lists;
pub mod memory;
pub mod paths;
pub mod patterns;
pub mod plugin;
pub mod plugin_registry;
pub mod prompt_exec;
pub mod prompt_template;
pub mod provider;
pub mod risk;
pub mod sandbox;
pub mod sessions;
pub mod shell;
pub mod skill_registry;
pub mod skill_tools;
pub mod skills;
pub mod table;
pub mod text;
pub mod tokenizer;
pub mod tools;
pub mod yaml;

verus! {
}
