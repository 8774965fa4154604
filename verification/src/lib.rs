//! A git timeline for the terminal, with its logic proved.

pub mod app;
pub mod canvas;
pub mod cells;
pub mod color;
pub mod command;
pub mod git;
pub mod graph;
pub mod job;
pub mod remote;
pub mod text;
pub mod ui;
