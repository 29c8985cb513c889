//! A log viewer for container output: the query language, the scrolling
//! viewport, the wire formats and the styled lines, each with a contract.

pub mod ansi;
pub mod arith;
pub mod cli;
pub mod colors;
pub mod commands;
pub mod config;
pub mod docker;
pub mod logitem;
pub mod numbers;
pub mod query;
pub mod service;
pub mod state;
pub mod style;
pub mod text;
pub mod ui;
pub mod worker;
pub mod wrap;
