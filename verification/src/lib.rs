use vstd::prelude::*;

pub mod app_controller;
pub mod cheatsheet;
pub mod config;
pub mod conflicts;
pub mod daemon;
pub mod engine;
pub mod events;
pub mod feedback;
pub mod key;
pub mod keycodes;
pub mod launchd;
pub mod listener;
pub mod reload;
pub mod runtime;
pub mod service;
pub mod sets;
pub mod text;

verus! {

/// The configuration `kiwi init` writes.
pub const DEFAULT_CONFIG: &'static str = r#"# kiwi configuration
# Chords use `+`; accepted aliases include cmd, ctrl, alt, and esc.

[hyper]
key = "caps_lock"
tap = "escape"
modifiers = ["command", "control", "option", "shift"]

[ui]
feedback = "errors"
style = "notification"

[bindings]
"hyper+t" = { app = "Ghostty" }
"hyper+s" = { app = "Slack" }
"hyper+a" = { keys = "control+a" }

# Enable these to reproduce the optional Karabiner navigation layer.
"left_option+h" = { keys = "left", enabled = false }
"left_option+j" = { keys = "down", enabled = false }
"left_option+k" = { keys = "up", enabled = false }
"left_option+l" = { keys = "right", enabled = false }

# Other supported actions:
# "hyper+b" = { url = "https://example.com" }
# "hyper+c" = { command = "open -a Calendar" }
"#;

} // verus!
