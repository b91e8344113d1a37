//! The hook engine's portable logic: held-set maintenance, trigger
//! matching with longest-match selection, and the decision taken for
//! every keyboard event.  The platform callback is a thin shell around
//! `process_event`; everything it decides is stated here.

use vstd::prelude::*;

use crate::ast::{clone_statements, stmts_dv, Condition, SpecCondition, SpecStatement,
    SpecTriggerCombinations, Statement};
use crate::config::{spec_remap_target, Profile};
use crate::trigger::index_view;

verus! {

/// One keyboard event as the platform hands it over: the raw set-1
/// scan code, the extended flag, the injected flag, and the direction.
#[derive(Debug, Clone, Copy, PartialEq, Eq, Structural)]
pub struct KeyEvent {
    pub scan_code: u16,
    pub extended: bool,
    pub injected: bool,
    pub down: bool,
}

/// The canonical scan code of an event: extended keys carry the
/// extended prefix.
pub open spec fn canonical_code(e: KeyEvent) -> u16 {
    if e.extended {
        e.scan_code | 0xE000
    } else {
        e.scan_code
    }
}

/// The set of scan codes currently physically depressed, as observed
/// by the hook.
pub struct HeldSet {
    codes: Vec<u16>,
}

impl View for HeldSet {
    type V = Set<u16>;

    closed spec fn view(&self) -> Set<u16> {
        self.codes@.to_set()
    }
}

impl HeldSet {
    /// The representation holds each code at most once.
    pub closed spec fn wf(self) -> bool {
        forall|i: int, j: int|
            0 <= i < j < self.codes@.len() ==> self.codes@[i] != self.codes@[j]
    }

    /// An empty held set.
    pub fn new() -> (r: HeldSet)
        ensures
            r.wf(),
            r@ == Set::<u16>::empty(),
    {
        let r = HeldSet { codes: Vec::new() };
        proof {
            assert(r@ =~= Set::<u16>::empty());
        }
        r
    }

    /// Whether `code` is currently held.
    pub fn contains(&self, code: u16) -> (r: bool)
        ensures
            r == self@.contains(code),
    {
        let mut i: usize = 0;
        while i < self.codes.len()
            invariant
                0 <= i <= self.codes@.len(),
                forall|j: int| 0 <= j < i ==> self.codes@[j] != code,
            decreases self.codes@.len() - i,
        {
            if self.codes[i] == code {
                return true;
            }
            i = i + 1;
        }
        proof {
            assert(!self.codes@.contains(code));
        }
        false
    }

    /// Marks `code` as held.  Inserting a code already held changes
    /// nothing.
    pub fn insert(&mut self, code: u16)
        requires
            old(self).wf(),
        ensures
            final(self).wf(),
            final(self)@ == old(self)@.insert(code),
    {
        if !self.contains(code) {
            let ghost prev = self.codes@;
            self.codes.push(code);
            proof {
                assert forall|x: u16| self.codes@.to_set().contains(x) <==> prev.to_set().insert(
                    code,
                ).contains(x) by {
                    if self.codes@.contains(x) {
                        let k = choose|k: int| 0 <= k < self.codes@.len() && self.codes@[k] == x;
                        if k < prev.len() {
                            assert(prev[k] == x);
                        }
                    }
                    if prev.contains(x) {
                        let k = choose|k: int| 0 <= k < prev.len() && prev[k] == x;
                        assert(self.codes@[k] == x);
                    }
                    if x == code {
                        assert(self.codes@[prev.len() as int] == x);
                    }
                }
                assert(self.codes@.to_set() =~= prev.to_set().insert(code));
            }
        } else {
            proof {
                assert(self@ =~= old(self)@.insert(code));
            }
        }
    }

    /// Marks `code` as released.  Removing a code not held changes
    /// nothing.
    pub fn remove(&mut self, code: u16)
        requires
            old(self).wf(),
        ensures
            final(self).wf(),
            final(self)@ == old(self)@.remove(code),
    {
        let ghost prev = self.codes@;
        let mut out: Vec<u16> = Vec::new();
        let mut i: usize = 0;
        while i < self.codes.len()
            invariant
                0 <= i <= self.codes@.len(),
                prev == self.codes@,
                old(self).wf(),
                self.codes@ == old(self).codes@,
                forall|x: u16| out@.contains(x) <==> (prev.take(i as int).contains(x) && x
                    != code),
                forall|a: int, b: int| 0 <= a < b < out@.len() ==> out@[a] != out@[b],
            decreases self.codes@.len() - i,
        {
            let cur = self.codes[i];
            let ghost out_prev = out@;
            if cur != code {
                proof {
                    assert(!out@.contains(cur)) by {
                        if out@.contains(cur) {
                            assert(prev.take(i as int).contains(cur));
                            let a = choose|a: int|
                                0 <= a < i && #[trigger] prev.take(i as int)[a] == cur;
                            assert(prev[a] == cur && prev[i as int] == cur);
                        }
                    }
                }
                out.push(cur);
            }
            proof {
                assert forall|x: u16| out@.contains(x) <==> (prev.take(i as int + 1).contains(x)
                    && x != code) by {
                    if out@.contains(x) {
                        if out_prev.contains(x) {
                            assert(prev.take(i as int).contains(x));
                            let a = choose|a: int|
                                0 <= a < i && #[trigger] prev.take(i as int)[a] == x;
                            assert(prev.take(i as int + 1)[a] == x);
                        } else {
                            assert(x == cur);
                            assert(prev.take(i as int + 1)[i as int] == x);
                        }
                    }
                    if prev.take(i as int + 1).contains(x) && x != code {
                        let a = choose|a: int|
                            0 <= a < i + 1 && #[trigger] prev.take(i as int + 1)[a] == x;
                        if a < i {
                            assert(prev.take(i as int)[a] == x);
                            assert(out_prev.contains(x));
                            if cur != code {
                                let b = choose|b: int|
                                    0 <= b < out_prev.len() && out_prev[b] == x;
                                assert(out@[b] == x);
                            }
                        } else {
                            assert(x == cur);
                            assert(out@[out@.len() - 1] == x);
                        }
                    }
                }
            }
            i = i + 1;
        }
        proof {
            assert(prev.take(prev.len() as int) =~= prev);
        }
        self.codes = out;
        proof {
            assert(self.codes@.to_set() =~= prev.to_set().remove(code));
        }
    }
}

/// The status keys whose presence in the held set never blocks a
/// match: CapsLock, the grave key, and the Japanese input toggles.
pub open spec fn is_status_key(c: u16) -> bool {
    c == 0x3A || c == 0x29 || c == 0x7B || c == 0x79 || c == 0x70
}

/// Whether `c` is a status key.
pub fn status_key(c: u16) -> (r: bool)
    ensures
        r == is_status_key(c),
{
    c == 0x3A || c == 0x29 || c == 0x7B || c == 0x79 || c == 0x70
}

/// A combination matches a held set and an event code when it is not
/// empty, all its keys are held, its last key is the event itself, and
/// every held key outside it is a status key.
pub open spec fn combo_matches(t: Seq<u16>, held: Set<u16>, c: u16) -> bool {
    &&& t.len() > 0
    &&& forall|k: int| 0 <= k < t.len() ==> held.contains(#[trigger] t[k])
    &&& t.last() == c
    &&& forall|x: u16| held.contains(x) ==> t.contains(x) || is_status_key(x)
}

fn vec_contains(v: &Vec<u16>, x: u16) -> (r: bool)
    ensures
        r == v@.contains(x),
{
    let mut i: usize = 0;
    while i < v.len()
        invariant
            0 <= i <= v@.len(),
            forall|j: int| 0 <= j < i ==> v@[j] != x,
        decreases v@.len() - i,
    {
        if v[i] == x {
            return true;
        }
        i = i + 1;
    }
    false
}

/// Whether one combination matches the held set on event code `c`.
fn combo_matches_exec(t: &Vec<u16>, held: &HeldSet, c: u16) -> (r: bool)
    requires
        held.wf(),
    ensures
        r == combo_matches(t@, held@, c),
{
    if t.len() == 0 {
        return false;
    }
    if t[t.len() - 1] != c {
        return false;
    }
    let mut k: usize = 0;
    while k < t.len()
        invariant
            0 <= k <= t@.len(),
            forall|j: int| 0 <= j < k ==> held@.contains(#[trigger] t@[j]),
        decreases t@.len() - k,
    {
        if !held.contains(t[k]) {
            return false;
        }
        k = k + 1;
    }
    let mut h: usize = 0;
    while h < held.codes.len()
        invariant
            held.wf(),
            0 <= h <= held.codes@.len(),
            forall|j: int|
                0 <= j < h ==> t@.contains(#[trigger] held.codes@[j]) || is_status_key(
                    held.codes@[j],
                ),
        decreases held.codes@.len() - h,
    {
        let hc = held.codes[h];
        if !vec_contains(t, hc) && !status_key(hc) {
            proof {
                assert(held@.contains(hc));
            }
            return false;
        }
        h = h + 1;
    }
    proof {
        assert forall|x: u16| held@.contains(x) implies t@.contains(x) || is_status_key(x) by {
            let j = choose|j: int| 0 <= j < held.codes@.len() && held.codes@[j] == x;
            assert(t@.contains(held.codes@[j]) || is_status_key(held.codes@[j]));
        }
    }
    true
}

/// Scans all dispatch entries and picks the matching combination of
/// greatest length; among equals, the earliest wins.
pub fn find_best_match(index: &Vec<(Vec<u16>, Vec<Statement>)>, held: &HeldSet, c: u16) -> (r:
    Option<usize>)
    requires
        held.wf(),
    ensures
        match r {
            Some(bi) => {
                let iv = index_view(index@);
                &&& 0 <= bi < iv.len()
                &&& combo_matches(iv[bi as int].0, held@, c)
                &&& forall|j: int|
                    0 <= j < iv.len() && combo_matches((#[trigger] iv[j]).0, held@, c)
                        ==> iv[j].0.len() <= iv[bi as int].0.len()
                &&& forall|j: int|
                    0 <= j < bi && combo_matches((#[trigger] iv[j]).0, held@, c) ==> iv[j].0.len()
                        < iv[bi as int].0.len()
            },
            None => forall|j: int|
                0 <= j < index@.len() ==> !combo_matches(
                    (#[trigger] index_view(index@)[j]).0,
                    held@,
                    c,
                ),
        },
{
    let ghost iv = index_view(index@);
    let mut best: Option<usize> = None;
    let mut i: usize = 0;
    while i < index.len()
        invariant
            held.wf(),
            0 <= i <= index@.len(),
            iv == index_view(index@),
            match best {
                Some(bi) => {
                    &&& 0 <= bi < i
                    &&& combo_matches(iv[bi as int].0, held@, c)
                    &&& forall|j: int|
                        0 <= j < i && combo_matches((#[trigger] iv[j]).0, held@, c)
                            ==> iv[j].0.len() <= iv[bi as int].0.len()
                    &&& forall|j: int|
                        0 <= j < bi && combo_matches((#[trigger] iv[j]).0, held@, c)
                            ==> iv[j].0.len() < iv[bi as int].0.len()
                },
                None => forall|j: int|
                    0 <= j < i ==> !combo_matches((#[trigger] iv[j]).0, held@, c),
            },
        decreases index@.len() - i,
    {
        proof {
            assert(iv[i as int].0 == index@[i as int].0@);
        }
        if combo_matches_exec(&index[i].0, held, c) {
            match best {
                Some(bi) => {
                    if index[i].0.len() > index[bi].0.len() {
                        best = Some(i);
                    }
                },
                None => {
                    best = Some(i);
                },
            }
        }
        i = i + 1;
    }
    best
}

/// What the hook does with one event.
pub enum HookDecision {
    /// Suppress the event and hand this block body to the executor.
    Dispatch(Vec<Statement>),
    /// Suppress the event and inject the target code in the same
    /// direction instead.
    Remap(u16),
    /// Pass the event on to the next hook in the chain.
    Forward,
}

/// True when some dispatch entry matches.
pub open spec fn some_match(iv: Seq<(Seq<u16>, Seq<SpecStatement>)>, held: Set<u16>, c: u16) -> bool {
    exists|j: int| 0 <= j < iv.len() && combo_matches((#[trigger] iv[j]).0, held, c)
}

/// Decides one keyboard event.
///
/// An injected event is forwarded with no state touched at all.  A
/// physical event first updates the held set (insert on down, remove
/// on up).  A down event then dispatches the longest matching trigger
/// combination, if any; an event that dispatches nothing is remapped
/// through the profile's table, if it has an entry; anything else is
/// forwarded.
pub fn process_event(
    held: &mut HeldSet,
    index: &Vec<(Vec<u16>, Vec<Statement>)>,
    profile: &Profile,
    event: KeyEvent,
) -> (r: HookDecision)
    requires
        old(held).wf(),
    ensures
        final(held).wf(),
        event.injected ==> r is Forward && final(held)@ == old(held)@,
        !event.injected && event.down ==> final(held)@ == old(held)@.insert(canonical_code(event)),
        !event.injected && !event.down ==> final(held)@ == old(held)@.remove(
            canonical_code(event),
        ),
        !event.injected ==> match r {
            HookDecision::Dispatch(body) => {
                let iv = index_view(index@);
                &&& event.down
                &&& exists|bi: int|
                    {
                        &&& 0 <= bi < iv.len()
                        &&& combo_matches((#[trigger] iv[bi]).0, final(held)@, canonical_code(event))
                        &&& stmts_dv(body@) == iv[bi].1
                        &&& forall|j: int|
                            0 <= j < iv.len() && combo_matches(
                                (#[trigger] iv[j]).0,
                                final(held)@,
                                canonical_code(event),
                            ) ==> iv[j].0.len() <= iv[bi].0.len()
                        &&& forall|j: int|
                            0 <= j < bi && combo_matches(
                                (#[trigger] iv[j]).0,
                                final(held)@,
                                canonical_code(event),
                            ) ==> iv[j].0.len() < iv[bi].0.len()
                    }
            },
            HookDecision::Remap(target) => {
                &&& !(event.down && some_match(index_view(index@), final(held)@, canonical_code(event)))
                &&& spec_remap_target(profile.keys.deep_view(), canonical_code(event)) == Some(
                    target,
                )
            },
            HookDecision::Forward => {
                &&& !(event.down && some_match(index_view(index@), final(held)@, canonical_code(event)))
                &&& spec_remap_target(profile.keys.deep_view(), canonical_code(event)) is None
            },
        },
        !event.injected && event.down && some_match(
            index_view(index@),
            old(held)@.insert(canonical_code(event)),
            canonical_code(event),
        ) ==> r is Dispatch,
{
    if event.injected {
        return HookDecision::Forward;
    }
    let sc = if event.extended {
        event.scan_code | 0xE000
    } else {
        event.scan_code
    };
    if event.down {
        held.insert(sc);
        match find_best_match(index, held, sc) {
            Some(bi) => {
                let body = clone_statements(&index[bi].1);
                proof {
                    assert(index_view(index@)[bi as int].1 == stmts_dv(index@[bi as int].1@));
                }
                return HookDecision::Dispatch(body);
            },
            None => {},
        }
    } else {
        held.remove(sc);
    }
    match profile.remap_target(sc) {
        Some(target) => HookDecision::Remap(target),
        None => HookDecision::Forward,
    }
}


/// One combination of a condition holds when every key resolves and
/// every resolved code is currently held.
pub open spec fn combo_now_held(c: SpecTriggerCombinations, held: Set<u16>) -> bool {
    forall|k: int|
        0 <= k < c.0.len() ==> match crate::trigger::spec_resolve(#[trigger] c.0[k]) {
            Some(code) => held.contains(code),
            None => false,
        }
}

/// Evaluates a condition against the held set, as the hook's
/// condition evaluator does: `now_input` is true when any one of its
/// combinations is fully held; every other condition form reads as
/// false until given a semantics.
pub fn evaluate_now_input(condition: &Condition, held: &HeldSet) -> (r: bool)
    requires
        held.wf(),
    ensures
        match condition {
            Condition::NowInput(combos) => r == exists|i: int|
                0 <= i < combos.deep_view().len() && combo_now_held(
                    #[trigger] combos.deep_view()[i],
                    held@,
                ),
            _ => r == false,
        },
{
    let combos = match condition {
        Condition::NowInput(combos) => combos,
        _ => {
            return false;
        },
    };
    let ghost cdv = combos.deep_view();
    let mut i: usize = 0;
    while i < combos.len()
        invariant
            held.wf(),
            0 <= i <= combos@.len(),
            cdv == combos.deep_view(),
            condition.deep_view() == SpecCondition::NowInput(cdv),
            forall|j: int| 0 <= j < i ==> !combo_now_held(#[trigger] cdv[j], held@),
        decreases combos@.len() - i,
    {
        let keys = &combos[i].0;
        let ghost kdv = keys.deep_view();
        proof {
            assert(cdv[i as int] == combos@[i as int].deep_view());
        }
        let mut all_held = true;
        let mut k: usize = 0;
        while k < keys.len()
            invariant
                held.wf(),
                0 <= k <= keys@.len(),
                kdv == keys.deep_view(),
                all_held ==> forall|t: int|
                    0 <= t < k ==> match crate::trigger::spec_resolve(#[trigger] kdv[t]) {
                        Some(code) => held@.contains(code),
                        None => false,
                    },
                !all_held ==> !combo_now_held(SpecTriggerCombinations(kdv), held@),
            decreases keys@.len() - k,
        {
            proof {
                assert(kdv[k as int] == keys@[k as int].deep_view());
            }
            match crate::trigger::resolve_trigger_key(&keys[k]) {
                Some(code) => {
                    if !held.contains(code) {
                        all_held = false;
                    }
                },
                None => {
                    all_held = false;
                },
            }
            k = k + 1;
        }
        if all_held {
            proof {
                assert(cdv[i as int].0 == kdv);
                assert(combo_now_held(cdv[i as int], held@));
                assert(exists|j: int|
                    0 <= j < cdv.len() && combo_now_held(#[trigger] cdv[j], held@));
            }
            return true;
        }
        i = i + 1;
    }
    false
}

} // verus!
