//! The presentation policy of one invocation: which of the colored output,
//! the per-step header, the command output body and the exit-status footer
//! are shown. The library only decides these booleans; rendering them is
//! the caller's business.

use vstd::prelude::*;

use crate::strutil::str_eq;

verus! {

/// Which parts of the per-step presentation are requested.
#[derive(Debug, Clone, Copy, PartialEq, Eq, Structural)]
pub struct Settings {
    pub show_color: bool,
    pub show_header: bool,
    pub show_body: bool,
    pub show_footer: bool,
}

/// Whether a textual on/off flag value keeps its part of the output on:
/// an absent flag does, and a present one only when it is exactly `"on"`.
pub open spec fn flag_on(v: Option<String>) -> bool {
    match v {
        None => true,
        Some(s) => s@ == "on"@,
    }
}

impl Settings {
    /// The default policy: everything is shown.
    pub fn new() -> (r: Settings)
        ensures
            r == (Settings {
                show_color: true,
                show_header: true,
                show_body: true,
                show_footer: true,
            }),
    {
        Settings { show_color: true, show_header: true, show_body: true, show_footer: true }
    }

    /// Resolves the policy from raw flag values: each textual flag turns
    /// its part of the output off unless it reads `"on"`, and the silent
    /// flag turns everything off at once.
    pub fn from_flags(
        color: Option<String>,
        header: Option<String>,
        body: Option<String>,
        footer: Option<String>,
        silent: Option<bool>,
    ) -> (r: Settings)
        ensures
            r.show_color == (silent != Some(true) && flag_on(color)),
            r.show_header == (silent != Some(true) && flag_on(header)),
            r.show_body == (silent != Some(true) && flag_on(body)),
            r.show_footer == (silent != Some(true) && flag_on(footer)),
    {
        let mut settings = Settings::new();

        if let Some(value) = color {
            settings.show_color = str_eq(value.as_str(), "on");
        }
        if let Some(value) = header {
            settings.show_header = str_eq(value.as_str(), "on");
        }
        if let Some(value) = body {
            settings.show_body = str_eq(value.as_str(), "on");
        }
        if let Some(value) = footer {
            settings.show_footer = str_eq(value.as_str(), "on");
        }
        if let Some(value) = silent {
            if value {
                settings.show_color = false;
                settings.show_header = false;
                settings.show_body = false;
                settings.show_footer = false;
            }
        }

        settings
    }
}

} // verus!
