//! A keyboard-driven file tree browser: the list of visible file-system
//! entries, the commands that move a cursor over it, and the layout of
//! what is drawn.

pub mod fsnodetypes;
pub mod order;
pub mod commands;
pub mod config;
pub mod modality;
pub mod render;
pub mod iconhandler;
