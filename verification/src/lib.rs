//! Directory scanning, reporting and small local-server helpers, with
//! their behaviour stated as contracts and proved by Verus.

pub mod text;
pub mod size;
pub mod paths;
pub mod order;
pub mod scan;
pub mod ranking;
pub mod report;
pub mod payload;
pub mod http;
pub mod repo;
pub mod run;
pub mod console;
pub mod system;
pub mod web;
pub mod tui;
pub mod markdown;
