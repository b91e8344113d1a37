//! The reloadable runtime state and the tray surface's commands.
//!
//! A reload builds a fresh profile, dispatch index and executor from
//! plain values and swaps all three in at once; the held set is
//! deliberately left alone, because physical reality does not change
//! when a profile does.

use vstd::prelude::*;

use crate::ast::{GlobalSetting, Macro, Script, SpecGlobalSetting, SpecMacro, SpecScript,
    Statement};
use crate::config::Profile;
use crate::engine::HeldSet;
use crate::executor::{clone_macros, Executor};
use crate::trigger::{compile_triggers, index_view, script_entries};

verus! {

/// The commands the tray surface can hand the daemon.
#[derive(Debug, Clone, PartialEq, Eq)]
pub enum TrayAction {
    /// No command pending.
    Nothing,
    /// Leave the message loop and exit cleanly.
    Quit,
    /// Reload the current profile.
    Reload,
    /// Switch to the named profile.
    SwitchProfile(String),
}

/// Compares two strings character for character.
fn str_equal(a: &str, b: &str) -> (r: bool)
    ensures
        r == (a@ == b@),
{
    let an = a.unicode_len();
    let bn = b.unicode_len();
    if an != bn {
        return false;
    }
    let mut i: usize = 0;
    while i < an
        invariant
            0 <= i <= an,
            an as int == a@.len(),
            an as int == b@.len(),
            forall|j: int| 0 <= j < i ==> a@[j] == b@[j],
        decreases an - i,
    {
        if a.get_char(i) != b.get_char(i) {
            return false;
        }
        i = i + 1;
    }
    proof {
        assert(a@ =~= b@);
    }
    true
}

/// What a tray menu identifier commands: `quit` and `reload` are
/// themselves, an identifier with the profile prefix names the profile
/// after the prefix, and anything else commands nothing.
pub fn tray_action_for_menu_id(id: &str) -> (r: TrayAction)
    ensures
        r is Quit <==> id@ == "quit"@,
        r is Reload <==> id@ == "reload"@,
        r is SwitchProfile ==> id@.len() >= 8 && id@.subrange(0, 8) == "profile:"@
            && r->SwitchProfile_0@ == id@.skip(8),
        id@ != "quit"@ && id@ != "reload"@ && id@.len() >= 8 && id@.subrange(0, 8)
            == "profile:"@ ==> r is SwitchProfile,
{
    proof {
        reveal_strlit("quit");
        reveal_strlit("reload");
        reveal_strlit("profile:");
    }
    if str_equal(id, "quit") {
        return TrayAction::Quit;
    }
    if str_equal(id, "reload") {
        return TrayAction::Reload;
    }
    let n = id.unicode_len();
    if n >= 8 {
        let prefix = id.substring_char(0, 8);
        if str_equal(prefix, "profile:") {
            let name = id.substring_char(8, n).to_owned();
            return TrayAction::SwitchProfile(name);
        }
    }
    TrayAction::Nothing
}

/// All macro definitions of the loaded scripts, in script order, so
/// that a name defined several times is won by the definition loaded
/// last.
pub open spec fn all_macros(ss: Seq<SpecScript>) -> Seq<SpecMacro>
    decreases ss.len(),
{
    if ss.len() == 0 {
        seq![]
    } else {
        ss[0].macros + all_macros(ss.drop_first())
    }
}

/// All global settings of the loaded scripts, in script order.
pub open spec fn all_globals(ss: Seq<SpecScript>) -> Seq<SpecGlobalSetting>
    decreases ss.len(),
{
    if ss.len() == 0 {
        seq![]
    } else {
        ss[0].global_settings + all_globals(ss.drop_first())
    }
}

proof fn lemma_all_macros_push(ss: Seq<SpecScript>, s: SpecScript)
    ensures
        all_macros(ss.push(s)) == all_macros(ss) + s.macros,
    decreases ss.len(),
{
    if ss.len() == 0 {
        assert(ss.push(s).drop_first() =~= Seq::<SpecScript>::empty());
        assert(ss.push(s)[0] == s);
        assert(all_macros(Seq::<SpecScript>::empty()) == Seq::<SpecMacro>::empty());
        assert(all_macros(ss.push(s)) =~= all_macros(ss) + s.macros);
    } else {
        lemma_all_macros_push(ss.drop_first(), s);
        assert(ss.push(s).drop_first() =~= ss.drop_first().push(s));
        assert(ss.push(s)[0] == ss[0]);
        assert(all_macros(ss.push(s)) =~= all_macros(ss) + s.macros);
    }
}

proof fn lemma_all_globals_push(ss: Seq<SpecScript>, s: SpecScript)
    ensures
        all_globals(ss.push(s)) == all_globals(ss) + s.global_settings,
    decreases ss.len(),
{
    if ss.len() == 0 {
        assert(ss.push(s).drop_first() =~= Seq::<SpecScript>::empty());
        assert(ss.push(s)[0] == s);
        assert(all_globals(Seq::<SpecScript>::empty()) == Seq::<SpecGlobalSetting>::empty());
        assert(all_globals(ss.push(s)) =~= all_globals(ss) + s.global_settings);
    } else {
        lemma_all_globals_push(ss.drop_first(), s);
        assert(ss.push(s).drop_first() =~= ss.drop_first().push(s));
        assert(ss.push(s)[0] == ss[0]);
        assert(all_globals(ss.push(s)) =~= all_globals(ss) + s.global_settings);
    }
}

/// Clones a list of global settings, preserving its mirror.
fn clone_globals(v: &Vec<GlobalSetting>) -> (r: Vec<GlobalSetting>)
    ensures
        r.deep_view() == v.deep_view(),
{
    let r = v.clone();
    proof {
        assert forall|i: int| 0 <= i < v@.len() implies #[trigger] r.deep_view()[i]
            == v.deep_view()[i] by {
            assert(cloned::<GlobalSetting>(v@[i], r@[i]));
        }
        assert(r.deep_view() =~= v.deep_view());
    }
    r
}

/// Everything a reload replaces: the profile, the dispatch index and
/// the executor.
pub struct LoadedProfile {
    pub profile: Profile,
    pub triggers: Vec<(Vec<u16>, Vec<Statement>)>,
    pub executor: Executor,
}

/// Builds the replaceable parts of the runtime from a profile and its
/// parsed scripts: the dispatch index holds every resolvable trigger
/// combination, and the executor holds the scripts' merged settings
/// and macros, in order, so later definitions win.
pub fn build_runtime_parts(profile: Profile, scripts: &Vec<Script>) -> (r: LoadedProfile)
    ensures
        r.profile == profile,
        index_view(r.triggers@) == script_entries(scripts.deep_view()),
        r.executor.macros.deep_view() == all_macros(scripts.deep_view()),
        r.executor.global_settings.deep_view() == all_globals(scripts.deep_view()),
{
    let ghost sdv = scripts.deep_view();
    let triggers = compile_triggers(scripts);
    let mut merged_globals: Vec<GlobalSetting> = Vec::new();
    let mut merged_macros: Vec<Macro> = Vec::new();
    let mut i: usize = 0;
    proof {
        assert(merged_globals.deep_view() =~= all_globals(sdv.take(0)));
        assert(merged_macros.deep_view() =~= all_macros(sdv.take(0)));
    }
    while i < scripts.len()
        invariant
            0 <= i <= scripts@.len(),
            sdv == scripts.deep_view(),
            merged_globals.deep_view() == all_globals(sdv.take(i as int)),
            merged_macros.deep_view() == all_macros(sdv.take(i as int)),
        decreases scripts@.len() - i,
    {
        let ghost pre_g = merged_globals.deep_view();
        let ghost pre_m = merged_macros.deep_view();
        let mut gs = clone_globals(&scripts[i].global_settings);
        let ghost gs_dv = gs.deep_view();
        merged_globals.append(&mut gs);
        let mut ms = clone_macros(&scripts[i].macros);
        let ghost ms_dv = ms.deep_view();
        merged_macros.append(&mut ms);
        proof {
            assert(sdv[i as int] == scripts@[i as int].deep_view());
            assert(sdv.take(i as int).push(sdv[i as int]) =~= sdv.take(i as int + 1));
            lemma_all_globals_push(sdv.take(i as int), sdv[i as int]);
            lemma_all_macros_push(sdv.take(i as int), sdv[i as int]);
            assert(merged_globals.deep_view() =~= pre_g + gs_dv);
            assert(merged_macros.deep_view() =~= pre_m + ms_dv);
        }
        i = i + 1;
    }
    proof {
        assert(sdv.take(sdv.len() as int) =~= sdv);
    }
    let consolidated = Script {
        global_settings: merged_globals,
        macros: merged_macros,
        blocks: Vec::new(),
    };
    let executor = Executor::new(consolidated);
    LoadedProfile { profile, triggers, executor }
}

/// The process-wide state the hook and executor read: the held set,
/// which lives for the daemon's lifetime, and the replaceable triple.
pub struct RuntimeState {
    pub held: HeldSet,
    pub profile: Profile,
    pub triggers: Vec<(Vec<u16>, Vec<Statement>)>,
    pub executor: Executor,
}

impl RuntimeState {
    /// Swaps in a freshly loaded profile, dispatch index and executor
    /// together.  The held set is preserved exactly: a reload never
    /// invents or forgets a physically held key.
    pub fn apply_reload(&mut self, fresh: LoadedProfile)
        ensures
            final(self).held == old(self).held,
            final(self).held@ == old(self).held@,
            final(self).profile == fresh.profile,
            final(self).triggers == fresh.triggers,
            final(self).executor == fresh.executor,
    {
        let LoadedProfile { profile, triggers, executor } = fresh;
        self.profile = profile;
        self.triggers = triggers;
        self.executor = executor;
    }
}

} // verus!
