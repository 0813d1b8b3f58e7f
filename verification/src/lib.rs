//! The logic of a terminal client for Linear: the issues it lists and how
//! it groups and finds them, the text fields and commands a user works it
//! with, and the small formats it reads and writes along the way.

pub mod api;
pub mod body;
pub mod callback;
pub mod changes;
pub mod clipboard;
pub mod context;
pub mod cycles;
pub mod detail;
pub mod edits;
pub mod control;
pub mod entity;
pub mod fuzzy;
pub mod grouping;
pub mod handoff;
pub mod hints;
pub mod identifier;
pub mod input;
pub mod list;
pub mod look;
pub mod markdown;
pub mod memo;
pub mod message;
pub mod mutation;
pub mod navigation;
pub mod notation;
pub mod palette;
pub mod panel;
pub mod partition;
pub mod resolve;
pub mod row;
pub mod screen;
pub mod show;
pub mod snapshot;
pub mod text;
pub mod views;
pub mod timestamp;
pub mod widgets;
