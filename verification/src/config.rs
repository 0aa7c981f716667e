//! The settings of a server.

use vstd::prelude::*;

verus! {

/// The settings of the preview pipeline.
pub struct PreviewSystem {
    /// Whether every preview tile is rendered anew when a room opens.
    pub process_all_at_start: bool,
}

/// The settings of a server.
pub struct Config {
    pub listen_ip: String,
    pub listen_port: u16,
    /// How long a room waits between two savings of its canvas, in
    /// milliseconds.
    pub autosave_interval_ms: u32,
    pub plugin_list: Vec<String>,
    pub preview_system: PreviewSystem,
    /// The password that makes a session an administrator, if there is
    /// one.
    pub admin_password: Option<String>,
    pub enable_console: bool,
}

impl Config {
    /// The password, if one is set.
    pub fn password(&self) -> (password: Option<&str>)
        ensures
            match password {
                Some(p) => self.admin_password matches Some(set) && p@ == set@,
                None => self.admin_password is None,
            },
    {
        match &self.admin_password {
            Some(p) => Some(p.as_str()),
            None => None,
        }
    }
}

} // verus!
