//! The input simulator's plan: what a `Send` statement emits, as a
//! sequence of primitive emissions.  The surrounding program performs
//! the plan through the platform injection interface; everything that
//! decides *what* is emitted, and in which order, is computed and
//! specified here.

use vstd::prelude::*;

use crate::ast::{SendExpression, SpecSendExpression, SpecTriggerKey, TriggerKey};
use crate::trigger::{resolve_trigger_key, spec_resolve};

verus! {

/// One primitive emission of the input simulator.
#[derive(Debug, Clone, Copy, PartialEq, Eq, Structural)]
pub enum SimEvent {
    /// Inject a key-down for this canonical scan code.
    KeyDown(u16),
    /// Inject a key-up for this canonical scan code.
    KeyUp(u16),
    /// Inject one character as a unicode event pair.
    Unicode(char),
    /// Pause this many milliseconds between emissions.
    PauseMs(u64),
}

/// The scan codes of the resolvable keys, in order; unresolvable keys
/// are skipped.
pub open spec fn resolved_codes(ks: Seq<SpecTriggerKey>) -> Seq<u16>
    decreases ks.len(),
{
    if ks.len() == 0 {
        seq![]
    } else {
        match spec_resolve(ks[0]) {
            Some(c) => seq![c] + resolved_codes(ks.drop_first()),
            None => resolved_codes(ks.drop_first()),
        }
    }
}

/// Key-downs in order, each followed by a brief pause.
pub open spec fn downs_plan(cs: Seq<u16>) -> Seq<SimEvent>
    decreases cs.len(),
{
    if cs.len() == 0 {
        seq![]
    } else {
        seq![SimEvent::KeyDown(cs[0]), SimEvent::PauseMs(10)] + downs_plan(cs.drop_first())
    }
}

/// Key-ups in reverse order, each followed by a brief pause.
pub open spec fn ups_plan_rev(cs: Seq<u16>) -> Seq<SimEvent>
    decreases cs.len(),
{
    if cs.len() == 0 {
        seq![]
    } else {
        seq![SimEvent::KeyUp(cs.last()), SimEvent::PauseMs(10)] + ups_plan_rev(cs.drop_last())
    }
}

/// A combination shortcut: press every resolvable key in order, pause,
/// then release them in reverse order.
pub open spec fn combo_plan(ks: Seq<SpecTriggerKey>) -> Seq<SimEvent> {
    downs_plan(resolved_codes(ks)) + seq![SimEvent::PauseMs(10)] + ups_plan_rev(
        resolved_codes(ks),
    )
}

/// A literal string: one unicode emission per character.
pub open spec fn string_plan(text: Seq<char>) -> Seq<SimEvent>
    decreases text.len(),
{
    if text.len() == 0 {
        seq![]
    } else {
        seq![SimEvent::Unicode(text[0])] + string_plan(text.drop_first())
    }
}

/// A tapped key: down, pause, up; nothing for an unresolvable key.
pub open spec fn key_plan(k: SpecTriggerKey) -> Seq<SimEvent> {
    match spec_resolve(k) {
        Some(c) => seq![SimEvent::KeyDown(c), SimEvent::PauseMs(10), SimEvent::KeyUp(c)],
        None => seq![],
    }
}

/// Adds a code to the automatic-release set, kept ascending without
/// duplicates.
pub open spec fn rel_insert(s: Seq<u16>, c: u16) -> Seq<u16>
    decreases s.len(),
{
    if s.len() == 0 {
        seq![c]
    } else if c < s[0] {
        seq![c] + s
    } else if c == s[0] {
        s
    } else {
        seq![s[0]] + rel_insert(s.drop_first(), c)
    }
}

/// Removes a code from the automatic-release set.
pub open spec fn rel_remove(s: Seq<u16>, c: u16) -> Seq<u16>
    decreases s.len(),
{
    if s.len() == 0 {
        seq![]
    } else if s[0] == c {
        rel_remove(s.drop_first(), c)
    } else {
        seq![s[0]] + rel_remove(s.drop_first(), c)
    }
}

/// What one send expression emits, and how it changes the
/// automatic-release set.
pub open spec fn expr_plan(x: SpecSendExpression, rel: Seq<u16>) -> (Seq<SimEvent>, Seq<u16>) {
    match x {
        SpecSendExpression::Key(k) => (key_plan(k), rel),
        SpecSendExpression::String(text) => (string_plan(text), rel),
        SpecSendExpression::Combo(ks) => (combo_plan(ks), rel),
        SpecSendExpression::Hold(k) => match spec_resolve(k) {
            Some(c) => (seq![SimEvent::KeyDown(c)], rel_insert(rel, c)),
            None => (seq![], rel),
        },
        SpecSendExpression::Release(k) => match spec_resolve(k) {
            Some(c) => (seq![SimEvent::KeyUp(c)], rel_remove(rel, c)),
            None => (seq![], rel),
        },
    }
}

/// The emissions of a list of expressions, threading the
/// automatic-release set through.
pub open spec fn exprs_plan(xs: Seq<SpecSendExpression>, rel: Seq<u16>) -> (
    Seq<SimEvent>,
    Seq<u16>,
)
    decreases xs.len(),
{
    if xs.len() == 0 {
        (seq![], rel)
    } else {
        let (evs, rel1) = expr_plan(xs[0], rel);
        let (rest, rel2) = exprs_plan(xs.drop_first(), rel1);
        (evs + rest, rel2)
    }
}

/// Key-ups for every code still in the automatic-release set, in
/// ascending order.
pub open spec fn final_ups(rel: Seq<u16>) -> Seq<SimEvent> {
    Seq::new(
        rel.len(),
        |i: int|
            if 0 <= i < rel.len() {
                SimEvent::KeyUp(rel[i])
            } else {
                arbitrary()
            },
    )
}

/// What a whole `Send` statement emits: each expression's plan in
/// order, then a key-up for every key held by a `Hold` with no
/// matching `Release`.
pub open spec fn spec_send_plan(xs: Seq<SpecSendExpression>) -> Seq<SimEvent> {
    let (evs, rel) = exprs_plan(xs, seq![]);
    evs + final_ups(rel)
}

fn rel_insert_exec(v: &Vec<u16>, c: u16, start: usize) -> (r: Vec<u16>)
    requires
        start <= v@.len(),
    ensures
        r@ == rel_insert(v@.skip(start as int), c),
    decreases v@.len() - start,
{
    let ghost suf = v@.skip(start as int);
    if start == v.len() {
        let mut r: Vec<u16> = Vec::new();
        r.push(c);
        proof {
            assert(r@ =~= rel_insert(suf, c));
        }
        r
    } else if c < v[start] {
        let mut r: Vec<u16> = Vec::new();
        r.push(c);
        let mut j = start;
        while j < v.len()
            invariant
                start <= j <= v@.len(),
                r@ == seq![c] + v@.subrange(start as int, j as int),
            decreases v@.len() - j,
        {
            r.push(v[j]);
            proof {
                assert(r@ =~= seq![c] + v@.subrange(start as int, j as int + 1));
            }
            j = j + 1;
        }
        proof {
            assert(v@.subrange(start as int, v@.len() as int) =~= suf);
            assert(suf[0] == v@[start as int]);
        }
        r
    } else if c == v[start] {
        let mut r: Vec<u16> = Vec::new();
        let mut j = start;
        while j < v.len()
            invariant
                start <= j <= v@.len(),
                r@ == v@.subrange(start as int, j as int),
            decreases v@.len() - j,
        {
            r.push(v[j]);
            proof {
                assert(r@ =~= v@.subrange(start as int, j as int + 1));
            }
            j = j + 1;
        }
        proof {
            assert(v@.subrange(start as int, v@.len() as int) =~= suf);
            assert(suf[0] == v@[start as int]);
        }
        r
    } else {
        let rest = rel_insert_exec(v, c, start + 1);
        let mut r: Vec<u16> = Vec::new();
        r.push(v[start]);
        let mut j: usize = 0;
        while j < rest.len()
            invariant
                0 <= j <= rest@.len(),
                r@ == seq![v@[start as int]] + rest@.subrange(0, j as int),
            decreases rest@.len() - j,
        {
            r.push(rest[j]);
            proof {
                assert(r@ =~= seq![v@[start as int]] + rest@.subrange(0, j as int + 1));
            }
            j = j + 1;
        }
        proof {
            assert(rest@.subrange(0, rest@.len() as int) =~= rest@);
            assert(suf[0] == v@[start as int]);
            assert(suf.drop_first() =~= v@.skip(start as int + 1));
            assert(r@ =~= seq![suf[0]] + rel_insert(suf.drop_first(), c));
        }
        r
    }
}

fn rel_remove_exec(v: &Vec<u16>, c: u16) -> (r: Vec<u16>)
    ensures
        r@ == rel_remove(v@, c),
{
    let mut r: Vec<u16> = Vec::new();
    let mut i: usize = 0;
    proof {
        assert(v@.skip(0) =~= v@);
    }
    while i < v.len()
        invariant
            0 <= i <= v@.len(),
            rel_remove(v@, c) == r@ + rel_remove(v@.skip(i as int), c),
        decreases v@.len() - i,
    {
        let ghost suf = v@.skip(i as int);
        let ghost pre = r@;
        proof {
            assert(suf[0] == v@[i as int]);
            assert(suf.drop_first() =~= v@.skip(i as int + 1));
        }
        if v[i] != c {
            r.push(v[i]);
            proof {
                assert(pre + (seq![suf[0]] + rel_remove(suf.drop_first(), c)) =~= r@ + rel_remove(
                    v@.skip(i as int + 1),
                    c,
                ));
            }
        }
        i = i + 1;
    }
    proof {
        assert(v@.skip(v@.len() as int) =~= Seq::<u16>::empty());
        assert(r@ + rel_remove(Seq::<u16>::empty(), c) =~= r@);
    }
    r
}

/// Appends the downs-then-reversed-ups plan of one combination.
fn push_combo_plan(out: &mut Vec<SimEvent>, keys: &Vec<TriggerKey>)
    ensures
        final(out)@ == old(out)@ + combo_plan(keys.deep_view()),
{
    let ghost kdv = keys.deep_view();
    let ghost base = out@;
    let mut codes: Vec<u16> = Vec::new();
    let mut i: usize = 0;
    proof {
        assert(kdv.skip(0) =~= kdv);
        assert(downs_plan(codes@) =~= Seq::<SimEvent>::empty());
        assert(codes@ + resolved_codes(kdv) =~= resolved_codes(kdv));
        assert(out@ =~= base + downs_plan(codes@));
    }
    while i < keys.len()
        invariant
            0 <= i <= keys@.len(),
            kdv == keys.deep_view(),
            resolved_codes(kdv) == codes@ + resolved_codes(kdv.skip(i as int)),
            out@ == base + downs_plan(codes@),
        decreases keys@.len() - i,
    {
        let ghost suf = kdv.skip(i as int);
        let ghost pre_codes = codes@;
        let ghost pre_out = out@;
        proof {
            assert(suf[0] == kdv[i as int]);
            assert(kdv[i as int] == keys@[i as int].deep_view());
            assert(suf.drop_first() =~= kdv.skip(i as int + 1));
        }
        match resolve_trigger_key(&keys[i]) {
            Some(c) => {
                codes.push(c);
                out.push(SimEvent::KeyDown(c));
                out.push(SimEvent::PauseMs(10));
                proof {
                    lemma_downs_push(pre_codes, c);
                    assert(codes@ =~= pre_codes.push(c));
                    assert(out@ =~= pre_out + seq![SimEvent::KeyDown(c), SimEvent::PauseMs(10)]);
                    assert(pre_codes + (seq![c] + resolved_codes(kdv.skip(i as int + 1)))
                        =~= codes@ + resolved_codes(kdv.skip(i as int + 1)));
                }
            },
            None => {},
        }
        i = i + 1;
    }
    proof {
        assert(kdv.skip(keys@.len() as int) =~= Seq::<SpecTriggerKey>::empty());
        assert(codes@ + resolved_codes(Seq::<SpecTriggerKey>::empty()) =~= codes@);
        assert(codes@ == resolved_codes(kdv));
    }
    out.push(SimEvent::PauseMs(10));
    let ghost mid = out@;
    let mut j: usize = codes.len();
    let ghost mut delta = Seq::<SimEvent>::empty();
    proof {
        assert(out@ =~= mid + delta);
        assert(codes@.take(codes@.len() as int) =~= codes@);
        assert(delta + ups_plan_rev(codes@.take(codes@.len() as int)) =~= ups_plan_rev(codes@));
    }
    while j > 0
        invariant
            0 <= j <= codes@.len(),
            out@ == mid + delta,
            ups_plan_rev(codes@) == delta + ups_plan_rev(codes@.take(j as int)),
        decreases j,
    {
        proof {
            assert(codes@.take(j as int).last() == codes@[j - 1]);
            assert(codes@.take(j as int).drop_last() =~= codes@.take(j as int - 1));
        }
        out.push(SimEvent::KeyUp(codes[j - 1]));
        out.push(SimEvent::PauseMs(10));
        proof {
            delta = delta + seq![SimEvent::KeyUp(codes@[j - 1]), SimEvent::PauseMs(10)];
            assert(out@ =~= mid + delta);
            assert(ups_plan_rev(codes@) =~= delta + ups_plan_rev(codes@.take(j as int - 1)));
        }
        j = j - 1;
    }
    proof {
        assert(codes@.take(0) =~= Seq::<u16>::empty());
        assert(delta + ups_plan_rev(Seq::<u16>::empty()) =~= delta);
        assert(out@ =~= base + combo_plan(kdv));
    }
}


/// Downs of one more code extend the downs plan at the end.
proof fn lemma_downs_push(cs: Seq<u16>, c: u16)
    ensures
        downs_plan(cs.push(c)) == downs_plan(cs) + seq![
            SimEvent::KeyDown(c),
            SimEvent::PauseMs(10),
        ],
    decreases cs.len(),
{
    if cs.len() == 0 {
        assert(cs.push(c).drop_first() =~= Seq::<u16>::empty());
        assert(cs.push(c)[0] == c);
        assert(downs_plan(Seq::<u16>::empty()) == Seq::<SimEvent>::empty());
        assert(downs_plan(cs.push(c)) =~= downs_plan(cs) + seq![
            SimEvent::KeyDown(c),
            SimEvent::PauseMs(10),
        ]);
    } else {
        lemma_downs_push(cs.drop_first(), c);
        assert(cs.push(c).drop_first() =~= cs.drop_first().push(c));
        assert(cs.push(c)[0] == cs[0]);
        assert(downs_plan(cs.push(c)) =~= downs_plan(cs) + seq![
            SimEvent::KeyDown(c),
            SimEvent::PauseMs(10),
        ]);
    }
}

/// Computes the full emission plan of one `Send` statement.
pub fn send_plan(exprs: &Vec<SendExpression>) -> (r: Vec<SimEvent>)
    ensures
        r@ == spec_send_plan(exprs.deep_view()),
{
    let ghost xdv = exprs.deep_view();
    let mut out: Vec<SimEvent> = Vec::new();
    let mut rel: Vec<u16> = Vec::new();
    let mut i: usize = 0;
    proof {
        assert(xdv.skip(0) =~= xdv);
    }
    while i < exprs.len()
        invariant
            0 <= i <= exprs@.len(),
            xdv == exprs.deep_view(),
            exprs_plan(xdv, Seq::<u16>::empty()).0 == out@ + exprs_plan(
                xdv.skip(i as int),
                rel@,
            ).0,
            exprs_plan(xdv, Seq::<u16>::empty()).1 == exprs_plan(xdv.skip(i as int), rel@).1,
        decreases exprs@.len() - i,
    {
        let ghost suf = xdv.skip(i as int);
        let ghost pre_out = out@;
        let ghost pre_rel = rel@;
        proof {
            assert(suf[0] == xdv[i as int]);
            assert(xdv[i as int] == exprs@[i as int].deep_view());
            assert(suf.drop_first() =~= xdv.skip(i as int + 1));
        }
        match &exprs[i] {
            SendExpression::Key(k) => {
                match resolve_trigger_key(k) {
                    Some(c) => {
                        out.push(SimEvent::KeyDown(c));
                        out.push(SimEvent::PauseMs(10));
                        out.push(SimEvent::KeyUp(c));
                        proof {
                            assert(out@ =~= pre_out + key_plan(k.deep_view()));
                        }
                    },
                    None => {
                        proof {
                            assert(out@ =~= pre_out + key_plan(k.deep_view()));
                        }
                    },
                }
            },
            SendExpression::String(text) => {
                push_string_plan(&mut out, text);
            },
            SendExpression::Combo(ks) => {
                push_combo_plan(&mut out, ks);
            },
            SendExpression::Hold(k) => {
                match resolve_trigger_key(k) {
                    Some(c) => {
                        out.push(SimEvent::KeyDown(c));
                        let new_rel = rel_insert_exec(&rel, c, 0);
                        rel = new_rel;
                        proof {
                            assert(pre_rel.skip(0) =~= pre_rel);
                            assert(out@ =~= pre_out + seq![SimEvent::KeyDown(c)]);
                        }
                    },
                    None => {},
                }
            },
            SendExpression::Release(k) => {
                match resolve_trigger_key(k) {
                    Some(c) => {
                        out.push(SimEvent::KeyUp(c));
                        let new_rel = rel_remove_exec(&rel, c);
                        rel = new_rel;
                        proof {
                            assert(out@ =~= pre_out + seq![SimEvent::KeyUp(c)]);
                        }
                    },
                    None => {},
                }
            },
        }
        proof {
            let (evs, rel1) = expr_plan(suf[0], pre_rel);
            assert(out@ =~= pre_out + evs);
            assert(rel@ == rel1);
            let (rest, rel2) = exprs_plan(xdv.skip(i as int + 1), rel1);
            assert(exprs_plan(suf, pre_rel).0 == evs + rest);
            assert(pre_out + (evs + rest) =~= out@ + rest);
        }
        i = i + 1;
    }
    proof {
        assert(xdv.skip(exprs@.len() as int) =~= Seq::<SpecSendExpression>::empty());
        assert(out@ + Seq::<SimEvent>::empty() =~= out@);
    }
    let mut q: usize = 0;
    let ghost evs_done = out@;
    proof {
        assert(final_ups(rel@).len() == rel@.len());
        assert(out@ =~= evs_done + final_ups(rel@).take(0));
    }
    while q < rel.len()
        invariant
            0 <= q <= rel@.len(),
            out@ == evs_done + final_ups(rel@).take(q as int),
        decreases rel@.len() - q,
    {
        out.push(SimEvent::KeyUp(rel[q]));
        proof {
            assert(final_ups(rel@).len() == rel@.len());
            assert(final_ups(rel@)[q as int] == SimEvent::KeyUp(rel@[q as int]));
            assert(out@ =~= evs_done + final_ups(rel@).take(q as int + 1));
        }
        q = q + 1;
    }
    proof {
        assert(final_ups(rel@).len() == rel@.len());
        assert(final_ups(rel@).take(rel@.len() as int) =~= final_ups(rel@));
        assert(out@ =~= evs_done + final_ups(rel@));
    }
    out
}

/// A three-key combination emits the three downs in order, then the
/// three ups in reverse order, with pauses between emissions.
pub proof fn lemma_combo_three_keys(k1: u16, k2: u16, k3: u16)
    ensures
        combo_plan(
            seq![
                SpecTriggerKey::Physical(k1),
                SpecTriggerKey::Physical(k2),
                SpecTriggerKey::Physical(k3),
            ],
        ) == seq![
            SimEvent::KeyDown(k1),
            SimEvent::PauseMs(10),
            SimEvent::KeyDown(k2),
            SimEvent::PauseMs(10),
            SimEvent::KeyDown(k3),
            SimEvent::PauseMs(10),
            SimEvent::PauseMs(10),
            SimEvent::KeyUp(k3),
            SimEvent::PauseMs(10),
            SimEvent::KeyUp(k2),
            SimEvent::PauseMs(10),
            SimEvent::KeyUp(k1),
            SimEvent::PauseMs(10),
        ],
{
    let ks = seq![
        SpecTriggerKey::Physical(k1),
        SpecTriggerKey::Physical(k2),
        SpecTriggerKey::Physical(k3),
    ];
    let ks1 = seq![SpecTriggerKey::Physical(k2), SpecTriggerKey::Physical(k3)];
    let ks2 = seq![SpecTriggerKey::Physical(k3)];
    let ks3 = Seq::<SpecTriggerKey>::empty();
    assert(ks[0] == SpecTriggerKey::Physical(k1));
    assert(ks1[0] == SpecTriggerKey::Physical(k2));
    assert(ks2[0] == SpecTriggerKey::Physical(k3));
    assert(ks.drop_first() =~= ks1);
    assert(ks1.drop_first() =~= ks2);
    assert(ks2.drop_first() =~= ks3);
    assert(resolved_codes(ks3) == Seq::<u16>::empty());
    assert(resolved_codes(ks2) == seq![k3] + resolved_codes(ks3));
    assert(resolved_codes(ks1) == seq![k2] + resolved_codes(ks2));
    assert(resolved_codes(ks) == seq![k1] + resolved_codes(ks1));
    let cs = seq![k1, k2, k3];
    assert(resolved_codes(ks) =~= cs);
    let cs1 = seq![k2, k3];
    let cs2 = seq![k3];
    let cs3 = Seq::<u16>::empty();
    assert(cs[0] == k1 && cs1[0] == k2 && cs2[0] == k3);
    assert(cs.drop_first() =~= cs1);
    assert(cs1.drop_first() =~= cs2);
    assert(cs2.drop_first() =~= cs3);
    assert(downs_plan(cs3) == Seq::<SimEvent>::empty());
    assert(downs_plan(cs2) == seq![SimEvent::KeyDown(k3), SimEvent::PauseMs(10)] + downs_plan(
        cs3,
    ));
    assert(downs_plan(cs1) == seq![SimEvent::KeyDown(k2), SimEvent::PauseMs(10)] + downs_plan(
        cs2,
    ));
    assert(downs_plan(cs) == seq![SimEvent::KeyDown(k1), SimEvent::PauseMs(10)] + downs_plan(
        cs1,
    ));
    assert(cs.last() == k3 && cs.drop_last().last() == k2 && cs.drop_last().drop_last().last()
        == k1);
    assert(cs.drop_last() =~= seq![k1, k2]);
    assert(cs.drop_last().drop_last() =~= seq![k1]);
    assert(cs.drop_last().drop_last().drop_last() =~= cs3);
    assert(ups_plan_rev(cs3) == Seq::<SimEvent>::empty());
    assert(ups_plan_rev(cs) == seq![SimEvent::KeyUp(k3), SimEvent::PauseMs(10)] + ups_plan_rev(
        cs.drop_last(),
    ));
    assert(ups_plan_rev(cs.drop_last()) == seq![SimEvent::KeyUp(k2), SimEvent::PauseMs(10)]
        + ups_plan_rev(cs.drop_last().drop_last()));
    assert(ups_plan_rev(cs.drop_last().drop_last()) == seq![
        SimEvent::KeyUp(k1),
        SimEvent::PauseMs(10),
    ] + ups_plan_rev(cs3));
    assert(combo_plan(ks) =~= seq![
        SimEvent::KeyDown(k1),
        SimEvent::PauseMs(10),
        SimEvent::KeyDown(k2),
        SimEvent::PauseMs(10),
        SimEvent::KeyDown(k3),
        SimEvent::PauseMs(10),
        SimEvent::PauseMs(10),
        SimEvent::KeyUp(k3),
        SimEvent::PauseMs(10),
        SimEvent::KeyUp(k2),
        SimEvent::PauseMs(10),
        SimEvent::KeyUp(k1),
        SimEvent::PauseMs(10),
    ]);
}


/// Appends one unicode emission per character of the text.
fn push_string_plan(out: &mut Vec<SimEvent>, text: &String)
    ensures
        final(out)@ == old(out)@ + string_plan(text@),
{
    let ghost base = out@;
    let t = text.as_str();
    let n = t.unicode_len();
    let mut p: usize = 0;
    let ghost mut delta = Seq::<SimEvent>::empty();
    proof {
        assert(t@.skip(0) =~= t@);
        assert(out@ =~= base + delta);
    }
    while p < n
        invariant
            0 <= p <= n,
            n as int == t@.len(),
            t@ == text@,
            out@ == base + delta,
            string_plan(t@) == delta + string_plan(t@.skip(p as int)),
        decreases n - p,
    {
        let ghost suf = t@.skip(p as int);
        let ghost pre_delta = delta;
        proof {
            assert(suf[0] == t@[p as int]);
            assert(suf.drop_first() =~= t@.skip(p as int + 1));
        }
        let ch = t.get_char(p);
        out.push(SimEvent::Unicode(ch));
        proof {
            delta = delta + seq![SimEvent::Unicode(ch)];
            assert(out@ =~= base + delta);
            assert(string_plan(suf) == seq![SimEvent::Unicode(suf[0])] + string_plan(
                suf.drop_first(),
            ));
            assert(pre_delta + (seq![SimEvent::Unicode(suf[0])] + string_plan(suf.drop_first()))
                =~= delta + string_plan(t@.skip(p as int + 1)));
        }
        p = p + 1;
    }
    proof {
        assert(t@.skip(n as int) =~= Seq::<char>::empty());
        assert(delta + string_plan(Seq::<char>::empty()) =~= delta);
    }
}


} // verus!
