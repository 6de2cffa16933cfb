//! File-access prompting: policy, learned rules, wire framing and prompt presentation.

pub mod text;
pub mod paths;
pub mod globs;
pub mod rules;
pub mod store;
pub mod policy;
pub mod config;
pub mod proto;
pub mod fanotify;
pub mod process;
pub mod scan;
pub mod markset;
pub mod ui_link;
pub mod access;
pub mod treewatch;
pub mod watcher;
pub mod display;
pub mod dialog;
pub mod prompt_view;
pub mod prompt_app;
pub mod worker;
pub mod theme;
pub mod table;
pub mod ctl;
pub mod commands;
