use vstd::prelude::*;

pub mod alerts;
pub mod json;
pub mod mcp;
pub mod metrics;
pub mod panels;
pub mod procfs;
pub mod ranking;
pub mod reader;
pub mod series;
pub mod services;
pub mod text;
pub mod thermal;
pub mod tui;
