//! Verified core of offgrid, a personal app for running language models locally.

use vstd::prelude::*;

pub mod agent;
pub mod bridge;
pub mod browse;
pub mod cli;
pub mod config;
pub mod desk;
pub mod figures;
pub mod gguf;
pub mod hardware;
pub mod html;
pub mod hub;
pub mod imagegen;
pub mod json;
pub mod llm;
pub mod markup;
pub mod models;
pub mod order;
pub mod server;
pub mod session;
pub mod single;
pub mod speed;
pub mod studio;
pub mod table;
pub mod text;
pub mod theme;
pub mod tools;
pub mod tui;
pub mod webchat;

verus! {

} // verus!
