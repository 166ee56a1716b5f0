//! Configuration logic of a mouse-gesture utility: trigger bindings (mouse
//! buttons and keyboard combinations), key codes, actions and action groups,
//! the normalization and validation of the settings, the edits of the action
//! and gesture lists, and the decisions the input hooks take during a gesture.

pub mod text;
pub mod keys;
pub mod binding;
pub mod config;
pub mod groups;
pub mod actions;
pub mod commands;
pub mod manager;
pub mod hook;

pub use crate::actions::{
    action_key_for_action, color_for_trigger_slot, find_action_for_gesture, normalize_trigger_slot,
    trigger_button_for_slot,
};
pub use crate::binding::{normalize_trigger_binding, parse_keyboard_trigger};
pub use crate::config::{Action, ActionGroup, Config, GestureTemplate, ValidationError};
pub use crate::keys::{display_key_for_code, keyboard_code_to_vk};

