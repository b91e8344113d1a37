//! The configuration store's data model: the global index and the
//! per-user profile.  Reading and writing the on-disk documents is the
//! surrounding program's business; the library works on the plain
//! values and states what every lookup returns.

use vstd::prelude::*;

use crate::keymap::{spec_get_scancode, spec_hex_name};
use crate::keymap::{get_scancode, hex_name};

verus! {

/// First value paired with `key` in an association list, if any.
pub open spec fn assoc_lookup(m: Seq<(Seq<char>, Seq<char>)>, key: Seq<char>) -> Option<Seq<char>>
    decreases m.len(),
{
    if m.len() == 0 {
        None
    } else if m[0].0 == key {
        Some(m[0].1)
    } else {
        assoc_lookup(m.drop_first(), key)
    }
}

/// Looks `key` up in an association list of strings, first match wins.
pub fn assoc_get(m: &Vec<(String, String)>, key: &str) -> (r: Option<String>)
    ensures
        match r {
            Some(v) => assoc_lookup(m.deep_view(), key@) == Some(v@),
            None => assoc_lookup(m.deep_view(), key@) is None,
        },
{
    let key_string = key.to_owned();
    proof {
        assert(m.deep_view().skip(0) =~= m.deep_view());
    }
    let mut i: usize = 0;
    while i < m.len()
        invariant
            0 <= i <= m@.len(),
            key_string@ == key@,
            assoc_lookup(m.deep_view(), key@) == assoc_lookup(m.deep_view().skip(i as int), key@),
        decreases m@.len() - i,
    {
        proof {
            assert(m.deep_view()[i as int] == (m@[i as int].0@, m@[i as int].1@));
            assert(m.deep_view().skip(i as int)[0] == m.deep_view()[i as int]);
            assert(m.deep_view().skip(i as int).drop_first() =~= m.deep_view().skip(i as int + 1));
        }
        if m[i].0 == key_string {
            let v = m[i].1.clone();
            return Some(v);
        }
        i = i + 1;
    }
    proof {
        assert(m.deep_view().skip(m@.len() as int) =~= Seq::<(Seq<char>, Seq<char>)>::empty());
    }
    None
}

/// The name of the profile the daemon starts with.
#[derive(Debug, Clone, PartialEq, Eq)]
pub struct DefaultProfile {
    pub default: String,
}

/// The global index: profile names with their document paths, the
/// default profile, and globally available scripts.
#[derive(Debug, Clone, PartialEq, Eq)]
pub struct Config {
    pub profiles: Vec<(String, String)>,
    pub default_profile: DefaultProfile,
    pub global_scripts: Vec<(String, String)>,
}

impl Config {
    /// Path of the default profile's document, if the index names one.
    pub fn default_profile_path(&self) -> (r: Option<String>)
        ensures
            match r {
                Some(v) => assoc_lookup(self.profiles.deep_view(), self.default_profile.default@)
                    == Some(v@),
                None => assoc_lookup(self.profiles.deep_view(), self.default_profile.default@)
                    is None,
            },
    {
        assoc_get(&self.profiles, self.default_profile.default.as_str())
    }

    /// Path registered for a profile name, if any.
    pub fn profile_path(&self, name: &str) -> (r: Option<String>)
        ensures
            match r {
                Some(v) => assoc_lookup(self.profiles.deep_view(), name@) == Some(v@),
                None => assoc_lookup(self.profiles.deep_view(), name@) is None,
            },
    {
        assoc_get(&self.profiles, name)
    }
}

/// One user profile: a name, a keyboard label, script paths, and the
/// static remapping table keyed by canonical hex scan-code names.
#[derive(Debug, Clone, PartialEq, Eq)]
pub struct Profile {
    pub name: String,
    pub keyboard: String,
    pub scripts: Vec<String>,
    pub keys: Vec<(String, String)>,
}

/// What static remapping does with a scan code under a remapping
/// table: the code's canonical hex name is looked up, and the name
/// found is resolved through the key identity table.
pub open spec fn spec_remap_target(keys: Seq<(Seq<char>, Seq<char>)>, code: u16) -> Option<u16> {
    match assoc_lookup(keys, spec_hex_name(code)) {
        Some(name) => spec_get_scancode(name),
        None => None,
    }
}

impl Profile {
    /// The scan code this profile remaps `code` to, if any.
    pub fn remap_target(&self, code: u16) -> (r: Option<u16>)
        ensures
            r == spec_remap_target(self.keys.deep_view(), code),
    {
        let key = hex_name(code);
        match assoc_get(&self.keys, key.as_str()) {
            Some(name) => get_scancode(name.as_str()),
            None => None,
        }
    }
}

} // verus!
