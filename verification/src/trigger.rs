//! The trigger compiler: resolves the symbolic keys of every block's
//! trigger combinations to scan codes and builds the flat dispatch
//! index the hook engine scans.  A combination with any unresolvable
//! key is dropped; the block's body is cloned into each entry.

use vstd::prelude::*;

use crate::ast::{clone_statements, stmts_dv, Script, SpecBlock, SpecScript, SpecStatement,
    SpecTriggerCombinations, SpecTriggerKey, Statement, TriggerKey};
use crate::keymap::{get_scancode, spec_get_scancode};

verus! {

/// What resolution does with one trigger key: a physical code stands
/// as it is, an extended code has the extended prefix forced on, and a
/// symbolic name goes through the key identity table.
pub open spec fn spec_resolve(tk: SpecTriggerKey) -> Option<u16> {
    match tk {
        SpecTriggerKey::Physical(sc) => Some(sc),
        SpecTriggerKey::ExtendedPhysical(sc) => Some(sc | 0xE000),
        SpecTriggerKey::Virtual(name) => spec_get_scancode(name),
    }
}

/// Resolves one trigger key to a canonical scan code.
pub fn resolve_trigger_key(tk: &TriggerKey) -> (r: Option<u16>)
    ensures
        r == spec_resolve(tk.deep_view()),
{
    match tk {
        TriggerKey::Physical(sc) => Some(*sc),
        TriggerKey::ExtendedPhysical(sc) => Some(*sc | 0xE000),
        TriggerKey::Virtual(name) => get_scancode(name.as_str()),
    }
}

/// Resolves a whole key list; nothing is returned as soon as any one
/// key does not resolve.
pub open spec fn resolve_keys(ks: Seq<SpecTriggerKey>) -> Option<Seq<u16>>
    decreases ks.len(),
{
    if ks.len() == 0 {
        Some(seq![])
    } else {
        match spec_resolve(ks[0]) {
            Some(code) => match resolve_keys(ks.drop_first()) {
                Some(rest) => Some(seq![code] + rest),
                None => None,
            },
            None => None,
        }
    }
}

/// Resolves every key of a combination, or nothing if any key is
/// unresolvable.
pub fn resolve_combination(keys: &Vec<TriggerKey>) -> (r: Option<Vec<u16>>)
    ensures
        match r {
            Some(v) => resolve_keys(keys.deep_view()) == Some(v@),
            None => resolve_keys(keys.deep_view()) is None,
        },
{
    let ghost kdv = keys.deep_view();
    let mut out: Vec<u16> = Vec::new();
    let mut i: usize = 0;
    proof {
        assert(kdv.skip(0) =~= kdv);
        assert(out@ + seq![] =~= out@);
    }
    while i < keys.len()
        invariant
            0 <= i <= keys@.len(),
            kdv == keys.deep_view(),
            out@.len() == i,
            forall|rest: Seq<u16>|
                resolve_keys(kdv.skip(i as int)) == Some::<Seq<u16>>(rest) ==> resolve_keys(kdv)
                    == Some(out@ + rest),
            resolve_keys(kdv.skip(i as int)) is None ==> resolve_keys(kdv) is None,
        decreases keys@.len() - i,
    {
        let ghost suf = kdv.skip(i as int);
        proof {
            assert(suf[0] == kdv[i as int]);
            assert(suf.drop_first() =~= kdv.skip(i as int + 1));
            assert(kdv[i as int] == keys@[i as int].deep_view());
        }
        match resolve_trigger_key(&keys[i]) {
            Some(code) => {
                let ghost old_out = out@;
                out.push(code);
                proof {
                    assert forall|rest: Seq<u16>|
                        resolve_keys(kdv.skip(i as int + 1)) == Some::<Seq<u16>>(
                            rest,
                        ) implies resolve_keys(kdv) == Some(out@ + rest) by {
                        assert(resolve_keys(suf) == Some(seq![code] + rest));
                        assert(old_out + (seq![code] + rest) =~= out@ + rest);
                    }
                }
            },
            None => {
                return None;
            },
        }
        i = i + 1;
    }
    proof {
        assert(kdv.skip(keys@.len() as int) =~= Seq::<SpecTriggerKey>::empty());
        assert(out@ + Seq::<u16>::empty() =~= out@);
    }
    Some(out)
}

/// The dispatch entries one block's combinations contribute: each
/// fully resolvable combination becomes one entry carrying the block's
/// body; the rest are dropped.
pub open spec fn combo_entries(cs: Seq<SpecTriggerCombinations>, body: Seq<SpecStatement>) -> Seq<
    (Seq<u16>, Seq<SpecStatement>),
>
    decreases cs.len(),
{
    if cs.len() == 0 {
        seq![]
    } else {
        match resolve_keys(cs[0].0) {
            Some(codes) => seq![(codes, body)] + combo_entries(cs.drop_first(), body),
            None => combo_entries(cs.drop_first(), body),
        }
    }
}

/// The dispatch entries of a list of blocks, in order.
pub open spec fn block_entries(bs: Seq<SpecBlock>) -> Seq<(Seq<u16>, Seq<SpecStatement>)>
    decreases bs.len(),
{
    if bs.len() == 0 {
        seq![]
    } else {
        combo_entries(bs[0].triggers, bs[0].body) + block_entries(bs.drop_first())
    }
}

/// The dispatch entries of a list of scripts, in order.
pub open spec fn script_entries(ss: Seq<SpecScript>) -> Seq<(Seq<u16>, Seq<SpecStatement>)>
    decreases ss.len(),
{
    if ss.len() == 0 {
        seq![]
    } else {
        block_entries(ss[0].blocks) + script_entries(ss.drop_first())
    }
}

/// The mirror of a built dispatch index, entry for entry.
pub open spec fn index_view(v: Seq<(Vec<u16>, Vec<Statement>)>) -> Seq<
    (Seq<u16>, Seq<SpecStatement>),
> {
    Seq::new(
        v.len(),
        |i: int|
            if 0 <= i < v.len() {
                (v[i].0@, stmts_dv(v[i].1@))
            } else {
                arbitrary()
            },
    )
}

proof fn lemma_combo_entries_push(cs: Seq<SpecTriggerCombinations>, c: SpecTriggerCombinations,
    body: Seq<SpecStatement>)
    ensures
        combo_entries(cs.push(c), body) == combo_entries(cs, body) + (match resolve_keys(c.0) {
            Some(codes) => seq![(codes, body)],
            None => seq![],
        }),
    decreases cs.len(),
{
    let tail = match resolve_keys(c.0) {
        Some(codes) => seq![(codes, body)],
        None => seq![],
    };
    if cs.len() == 0 {
        assert(cs.push(c).drop_first() =~= Seq::<SpecTriggerCombinations>::empty());
        assert(cs.push(c)[0] == c);
        assert(combo_entries(Seq::<SpecTriggerCombinations>::empty(), body) == Seq::<
            (Seq<u16>, Seq<SpecStatement>),
        >::empty());
        match resolve_keys(c.0) {
            Some(codes) => {
                assert(combo_entries(cs.push(c), body) =~= combo_entries(cs, body) + tail);
            },
            None => {
                assert(combo_entries(cs.push(c), body) =~= combo_entries(cs, body) + tail);
            },
        }
    } else {
        lemma_combo_entries_push(cs.drop_first(), c, body);
        assert(cs.push(c).drop_first() =~= cs.drop_first().push(c));
        assert(cs.push(c)[0] == cs[0]);
        match resolve_keys(cs[0].0) {
            Some(codes) => {
                assert(combo_entries(cs.push(c), body) =~= combo_entries(cs, body) + tail);
            },
            None => {},
        }
    }
}

proof fn lemma_block_entries_push(bs: Seq<SpecBlock>, b: SpecBlock)
    ensures
        block_entries(bs.push(b)) == block_entries(bs) + combo_entries(b.triggers, b.body),
    decreases bs.len(),
{
    if bs.len() == 0 {
        assert(bs.push(b).drop_first() =~= Seq::<SpecBlock>::empty());
        assert(bs.push(b)[0] == b);
        assert(block_entries(Seq::<SpecBlock>::empty()) == Seq::<
            (Seq<u16>, Seq<SpecStatement>),
        >::empty());
        assert(block_entries(bs.push(b)) =~= block_entries(bs) + combo_entries(
            b.triggers,
            b.body,
        ));
    } else {
        lemma_block_entries_push(bs.drop_first(), b);
        assert(bs.push(b).drop_first() =~= bs.drop_first().push(b));
        assert(bs.push(b)[0] == bs[0]);
        assert(block_entries(bs.push(b)) =~= block_entries(bs) + combo_entries(
            b.triggers,
            b.body,
        ));
    }
}

proof fn lemma_script_entries_push(ss: Seq<SpecScript>, s: SpecScript)
    ensures
        script_entries(ss.push(s)) == script_entries(ss) + block_entries(s.blocks),
    decreases ss.len(),
{
    if ss.len() == 0 {
        assert(ss.push(s).drop_first() =~= Seq::<SpecScript>::empty());
        assert(ss.push(s)[0] == s);
        assert(script_entries(Seq::<SpecScript>::empty()) == Seq::<
            (Seq<u16>, Seq<SpecStatement>),
        >::empty());
        assert(script_entries(ss.push(s)) =~= script_entries(ss) + block_entries(s.blocks));
    } else {
        lemma_script_entries_push(ss.drop_first(), s);
        assert(ss.push(s).drop_first() =~= ss.drop_first().push(s));
        assert(ss.push(s)[0] == ss[0]);
        assert(script_entries(ss.push(s)) =~= script_entries(ss) + block_entries(s.blocks));
    }
}

/// Builds the dispatch index from the loaded scripts: one entry per
/// fully resolvable trigger combination, carrying the scan codes and
/// an independent clone of the block's body, in script order.
pub fn compile_triggers(scripts: &Vec<Script>) -> (r: Vec<(Vec<u16>, Vec<Statement>)>)
    ensures
        index_view(r@) == script_entries(scripts.deep_view()),
{
    let ghost sdv = scripts.deep_view();
    let mut out: Vec<(Vec<u16>, Vec<Statement>)> = Vec::new();
    let mut si: usize = 0;
    while si < scripts.len()
        invariant
            0 <= si <= scripts@.len(),
            sdv == scripts.deep_view(),
            index_view(out@) == script_entries(sdv.take(si as int)),
        decreases scripts@.len() - si,
    {
        let script = &scripts[si];
        let ghost bdv = script.deep_view().blocks;
        let mut bi: usize = 0;
        while bi < script.blocks.len()
            invariant
                0 <= bi <= script.blocks@.len(),
                script == &scripts[si as int],
                0 <= si < scripts@.len(),
                sdv == scripts.deep_view(),
                bdv == script.deep_view().blocks,
                bdv.len() == script.blocks@.len(),
                index_view(out@) == script_entries(sdv.take(si as int)) + block_entries(
                    bdv.take(bi as int),
                ),
            decreases script.blocks@.len() - bi,
        {
            let block = &script.blocks[bi];
            let ghost cdv = block.deep_view().triggers;
            let ghost body_dv = block.deep_view().body;
            proof {
                assert(bdv[bi as int] == script.blocks@[bi as int].deep_view());
            }
            let mut ci: usize = 0;
            while ci < block.triggers.len()
                invariant
                    0 <= ci <= block.triggers@.len(),
                    block == &scripts[si as int].blocks[bi as int],
                    0 <= si < scripts@.len(),
                    0 <= bi < scripts@[si as int].blocks@.len(),
                    sdv == scripts.deep_view(),
                    bdv == scripts@[si as int].deep_view().blocks,
                    bdv.len() == scripts@[si as int].blocks@.len(),
                    cdv == block.deep_view().triggers,
                    cdv.len() == block.triggers@.len(),
                    body_dv == block.deep_view().body,
                    index_view(out@) == script_entries(sdv.take(si as int)) + block_entries(
                        bdv.take(bi as int),
                    ) + combo_entries(cdv.take(ci as int), body_dv),
                decreases block.triggers@.len() - ci,
            {
                proof {
                    assert(cdv[ci as int] == block.triggers@[ci as int].deep_view());
                    assert(cdv.take(ci as int).push(cdv[ci as int]) =~= cdv.take(ci as int + 1));
                    lemma_combo_entries_push(cdv.take(ci as int), cdv[ci as int], body_dv);
                }
                let ghost pre = index_view(out@);
                match resolve_combination(&block.triggers[ci].0) {
                    Some(codes) => {
                        let body = clone_statements(&block.body);
                        proof {
                            assert(stmts_dv(block.body@) == body_dv);
                            assert(block.triggers@[ci as int].0.deep_view() == cdv[ci as int].0);
                        }
                        out.push((codes, body));
                        proof {
                            assert(index_view(out@) =~= pre + seq![(codes@, body_dv)]);
                        }
                    },
                    None => {},
                }
                proof {
                    assert(index_view(out@) =~= script_entries(sdv.take(si as int))
                        + block_entries(bdv.take(bi as int)) + combo_entries(
                        cdv.take(ci as int + 1),
                        body_dv,
                    ));
                }
                ci = ci + 1;
            }
            proof {
                assert(cdv.take(cdv.len() as int) =~= cdv);
                assert(bdv.take(bi as int).push(bdv[bi as int]) =~= bdv.take(bi as int + 1));
                lemma_block_entries_push(bdv.take(bi as int), bdv[bi as int]);
                assert(index_view(out@) =~= script_entries(sdv.take(si as int)) + block_entries(
                    bdv.take(bi as int + 1),
                ));
            }
            bi = bi + 1;
        }
        proof {
            assert(bdv.take(bdv.len() as int) =~= bdv);
            assert(sdv.take(si as int).push(sdv[si as int]) =~= sdv.take(si as int + 1));
            assert(sdv[si as int] == scripts@[si as int].deep_view());
            lemma_script_entries_push(sdv.take(si as int), sdv[si as int]);
            assert(index_view(out@) =~= script_entries(sdv.take(si as int + 1)));
        }
        si = si + 1;
    }
    proof {
        assert(sdv.take(sdv.len() as int) =~= sdv);
    }
    out
}

} // verus!
