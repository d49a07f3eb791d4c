//! Version management for repositories that hold several projects.
//!
//! A manifest lists the projects of a repository. From the commits made since the last release
//! each project gets an increment size, which is carried along the dependencies between the
//! projects and applied to the project's version. The results are staged as file writes and tag
//! moves, which are then performed in a fixed order.
//!
//! The library reads and writes nothing itself: it is handed texts, commits and tags, and hands
//! back plans, new texts and the steps to take.

pub mod error;
pub mod outside;
pub mod table;
pub mod text;

pub mod order;
pub mod size;

pub mod mark;
pub mod picker;

pub mod config;
pub mod sizes;
pub mod tags;

pub mod analyze;
pub mod changes;
pub mod finder;
pub mod html;
pub mod plan;

pub mod commands;
pub mod mono;
pub mod state;
