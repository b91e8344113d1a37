//! The dashboard's state model: which view is selected, the loaded
//! index and profile, and the edits a user can make to them.  The
//! rendering shell owns the windows and the disk; it calls these
//! methods for every state change and persists to the path each
//! mutating method hands back.

use vstd::prelude::*;

use crate::config::{assoc_lookup, Config, Profile};

verus! {

/// The view selected in the dashboard's side panel.
#[derive(Debug, Clone, Copy, PartialEq, Eq, Structural)]
pub enum DashboardView {
    Profiles,
    Scripts,
    Mappings,
}

/// The dashboard's state.
pub struct PhybkcApp {
    pub config: Option<Config>,
    pub current_profile: Option<Profile>,
    pub selected_view: DashboardView,
    pub editing_script: Option<(String, String)>,
    pub new_profile_name: String,
    pub import_path: String,
    pub new_script_path: String,
    pub last_scancode: Option<u16>,
    pub previous_vk_states: [bool; 256],
}

impl PhybkcApp {
    /// A fresh dashboard over an already-loaded index, on the profiles
    /// view with empty edit fields.
    pub fn new(config: Option<Config>) -> (r: PhybkcApp)
        ensures
            r.config == config,
            r.current_profile is None,
            r.selected_view == DashboardView::Profiles,
            r.editing_script is None,
            r.new_profile_name@.len() == 0,
            r.import_path@.len() == 0,
            r.new_script_path@.len() == 0,
            r.last_scancode is None,
    {
        PhybkcApp {
            config,
            current_profile: None,
            selected_view: DashboardView::Profiles,
            editing_script: None,
            new_profile_name: String::new(),
            import_path: String::new(),
            new_script_path: String::new(),
            last_scancode: None,
            previous_vk_states: [false; 256],
        }
    }

    /// The path of the index's default profile, for the shell to load;
    /// nothing when no index is loaded or the default is not listed.
    pub fn load_default_profile(&self) -> (r: Option<String>)
        ensures
            match (r, &self.config) {
                (Some(path), Some(cfg)) => assoc_lookup(
                    cfg.profiles.deep_view(),
                    cfg.default_profile.default@,
                ) == Some(path@),
                (None, Some(cfg)) => assoc_lookup(
                    cfg.profiles.deep_view(),
                    cfg.default_profile.default@,
                ) is None,
                (None, None) => true,
                (Some(_), None) => false,
            },
    {
        match &self.config {
            Some(cfg) => cfg.default_profile_path(),
            None => None,
        }
    }

    /// Replaces the loaded profile with what the shell read from disk.
    pub fn set_current_profile(&mut self, profile: Option<Profile>)
        ensures
            final(self).current_profile == profile,
            final(self).config == old(self).config,
    {
        self.current_profile = profile;
    }

    /// Appends a script path to the loaded profile and clears the
    /// entry field.  Returns the profile's document path so the shell
    /// can persist the change; an empty path, a missing profile or a
    /// missing index change nothing lasting.
    pub fn add_script_to_profile(&mut self, script_path: &str) -> (r: Option<String>)
        ensures
            script_path@.len() == 0 ==> *final(self) == *old(self) && r is None,
            script_path@.len() > 0 ==> final(self).new_script_path@.len() == 0
                && final(self).config == old(self).config,
            script_path@.len() > 0 ==> match (&old(self).current_profile, &old(self).config) {
                (Some(p), Some(cfg)) => {
                    &&& final(self).current_profile matches Some(q)
                    &&& q.scripts@ == p.scripts@.push(final(self).current_profile->Some_0.scripts@.last())
                    &&& final(self).current_profile->Some_0.scripts@.len() == p.scripts@.len() + 1
                    &&& final(self).current_profile->Some_0.scripts@.last()@ == script_path@
                    &&& final(self).current_profile->Some_0.name == p.name
                    &&& final(self).current_profile->Some_0.keys == p.keys
                    &&& match r {
                        Some(path) => assoc_lookup(cfg.profiles.deep_view(), p.name@) == Some(
                            path@,
                        ),
                        None => assoc_lookup(cfg.profiles.deep_view(), p.name@) is None,
                    }
                },
                _ => final(self).current_profile == old(self).current_profile && r is None,
            },
    {
        let n = script_path.unicode_len();
        if n == 0 {
            return None;
        }
        let has_config = match &self.config {
            Some(_) => true,
            None => false,
        };
        let result: Option<String> = match self.current_profile.take() {
            Some(mut p) => {
                if has_config {
                    p.scripts.push(script_path.to_owned());
                    let path = match &self.config {
                        Some(cfg) => cfg.profile_path(p.name.as_str()),
                        None => None,
                    };
                    self.current_profile = Some(p);
                    path
                } else {
                    self.current_profile = Some(p);
                    None
                }
            },
            None => None,
        };
        self.new_script_path = String::new();
        result
    }

    /// Removes the script at `index` from the loaded profile.  Returns
    /// the profile's document path for the shell to persist; an index
    /// out of range, a missing profile or a missing index change
    /// nothing.
    pub fn remove_script_from_profile(&mut self, index: usize) -> (r: Option<String>)
        ensures
            final(self).config == old(self).config,
            final(self).new_script_path == old(self).new_script_path,
            match (&old(self).current_profile, &old(self).config) {
                (Some(p), Some(cfg)) => {
                    if index < p.scripts@.len() {
                        &&& final(self).current_profile matches Some(q)
                        &&& final(self).current_profile->Some_0.scripts@ == p.scripts@.remove(
                            index as int,
                        )
                        &&& final(self).current_profile->Some_0.name == p.name
                        &&& final(self).current_profile->Some_0.keys == p.keys
                        &&& match r {
                            Some(path) => assoc_lookup(cfg.profiles.deep_view(), p.name@) == Some(
                                path@,
                            ),
                            None => assoc_lookup(cfg.profiles.deep_view(), p.name@) is None,
                        }
                    } else {
                        final(self).current_profile == old(self).current_profile && r is None
                    }
                },
                _ => final(self).current_profile == old(self).current_profile && r is None,
            },
    {
        let has_config = match &self.config {
            Some(_) => true,
            None => false,
        };
        match self.current_profile.take() {
            Some(mut p) => {
                if has_config && index < p.scripts.len() {
                    p.scripts.remove(index);
                    let path = match &self.config {
                        Some(cfg) => cfg.profile_path(p.name.as_str()),
                        None => None,
                    };
                    self.current_profile = Some(p);
                    path
                } else {
                    self.current_profile = Some(p);
                    None
                }
            },
            None => None,
        }
    }

    /// Makes `name` the index's default profile.  Returns whether an
    /// index was loaded, so the shell knows to persist it.
    pub fn set_default_profile(&mut self, name: &str) -> (r: bool)
        ensures
            final(self).current_profile == old(self).current_profile,
            match &old(self).config {
                Some(cfg) => {
                    &&& r
                    &&& final(self).config matches Some(c2)
                    &&& final(self).config->Some_0.default_profile.default@ == name@
                    &&& final(self).config->Some_0.profiles == cfg.profiles
                    &&& final(self).config->Some_0.global_scripts == cfg.global_scripts
                },
                None => !r && final(self).config is None,
            },
    {
        match self.config.take() {
            Some(mut cfg) => {
                cfg.default_profile.default = name.to_owned();
                self.config = Some(cfg);
                true
            },
            None => false,
        }
    }
}

} // verus!
