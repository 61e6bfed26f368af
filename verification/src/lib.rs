//! Spoken formatting commands for dictated text, and the rules by which the
//! window that dictation started in gets the finished text.
pub mod dictation_commands;
pub mod focus;
pub mod foreground;
pub mod kind;
pub mod marks;
pub mod order;
pub mod pattern;
pub mod render;
pub mod settings;
pub mod text;
pub mod x11;
