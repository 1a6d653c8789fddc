//! Named profiles: which monitors a desk has and how each is to be set up.

use std::collections::HashMap;
use vstd::prelude::*;
use crate::config::line::SettingsModel;
use crate::config::monitors::MonitorSettings;

pub mod line;
pub mod monitors;

verus! {

/// The hardware behind a logical monitor name, as the monitor reports it.
/// Any field may be empty.
#[derive(Clone, Debug, PartialEq, Eq)]
pub struct MonitorIdentifier {
    pub make: String,
    pub model: String,
    pub serial: String,
}

/// A named set of monitors. Both maps are keyed by logical monitor name.
#[derive(Clone, Debug, PartialEq)]
pub struct ConfigProfile {
    pub profile_name: String,
    pub monitors: HashMap<String, MonitorIdentifier>,
    pub monitor_settings: HashMap<String, MonitorSettings>,
}

/// What a [`MonitorIdentifier`] holds.
pub struct IdentifierModel {
    pub make: Seq<char>,
    pub model: Seq<char>,
    pub serial: Seq<char>,
}

/// What a [`ConfigProfile`] holds.
pub struct ProfileModel {
    pub profile_name: Seq<char>,
    pub monitors: Map<Seq<char>, IdentifierModel>,
    pub monitor_settings: Map<Seq<char>, SettingsModel>,
}

impl View for MonitorIdentifier {
    type V = IdentifierModel;

    open spec fn view(&self) -> IdentifierModel {
        IdentifierModel { make: self.make@, model: self.model@, serial: self.serial@ }
    }
}

/// The key under which `entries` holds something for the monitor called
/// `name`, if there is one.
pub open spec fn key_of<V>(entries: Map<String, V>, name: Seq<char>) -> String {
    choose|key: String| entries.contains_key(key) && key@ == name
}

/// Whether `entries` holds something for the monitor called `name`.
pub open spec fn names<V>(entries: Map<String, V>, name: Seq<char>) -> bool {
    exists|key: String| entries.contains_key(key) && key@ == name
}

impl View for ConfigProfile {
    type V = ProfileModel;

    open spec fn view(&self) -> ProfileModel {
        ProfileModel {
            profile_name: self.profile_name@,
            monitors: Map::new(
                |name: Seq<char>| names(self.monitors@, name),
                |name: Seq<char>| self.monitors@[key_of(self.monitors@, name)]@,
            ),
            monitor_settings: Map::new(
                |name: Seq<char>| names(self.monitor_settings@, name),
                |name: Seq<char>| self.monitor_settings@[key_of(self.monitor_settings@, name)]@,
            ),
        }
    }
}

impl ProfileModel {
    /// Whether every monitor that has settings is also identified. A profile
    /// is expected to be like this; nothing enforces it.
    pub open spec fn settings_are_identified(self) -> bool {
        self.monitor_settings.dom().subset_of(self.monitors.dom())
    }
}

} // verus!
