//! Core of a modal, plugin-based text editor: dynamic values exchanged between
//! plugins, the event bus, the plugin data model and the editing plugins'
//! state machines.

pub mod api;
pub mod assoc;
pub mod buffer;
pub mod buffer_plugin;
pub mod buffer_registry;
pub mod cmdline;
pub mod command;
pub mod config;
pub mod compositor;
pub mod data;
pub mod draw;
pub mod editor;
pub mod event;
pub mod event_data;
pub mod frame;
pub mod input;
pub mod keymap;
pub mod keymap_plugin;
pub mod modal;
pub mod motion;
pub mod order;
pub mod query;
pub mod registry;
pub mod rope;
pub mod screen;
pub mod text;
pub mod tui;
pub mod tui_modal;
pub mod value;
