//! The guarantees that hold across the cache's operations, each proved once
//! and for all states: writes are visible to later reads, the load signal
//! fires exactly once per key, and the commit path reports each key's
//! three-way diff exactly.

use vstd::prelude::*;

use crate::assoc::{assoc_get, assoc_has, assoc_idx, assoc_put, lemma_assoc_at, lemma_assoc_put,
    unique_keys};
use crate::data_cache::{account_cols_match, changeset_post, diff_empty, lemma_resource_ops_unique,
    spec_module_ops, spec_resource_ops, spec_wrap_op, AccountDataCache, TransactionDataCache};
use crate::effects::{ChangeSet, Data, Op};
use crate::errors::StatusCode;
use crate::ids::{AccountAddress, Identifier, ModuleId, StructTag, Type, TypeTag};
use crate::loader::Loader;
use crate::values::{spec_into_effect, GlobalValue};
use move_core_types::value::MoveTypeLayout;

verus! {

/// Read-your-writes: a module published earlier in the transaction is what
/// a later load of the same id returns, byte for byte, whatever the backing
/// store would say. The first premise is what `publish_module` ensures of
/// the state it leaves; the second is what `load_module` ensures of its
/// result on that state.
pub proof fn law_read_your_writes(
    post: TransactionDataCache,
    module_id: ModuleId,
    blob: Vec<u8>,
    is_republishing: bool,
    r: Result<Vec<u8>, StatusCode>,
)
    requires
        post.local_module(module_id) == Some((blob, is_republishing)),
        post.local_module(module_id) matches Some(p) ==> r matches Ok(b) && b@ == p.0@,
    ensures
        r matches Ok(b) && b@ == blob@,
{
}

/// Exactly-once load signal: for a fixed key, the first successful
/// `load_resource` returns a signal (the byte length found, or "not found")
/// and every later successful call returns none. The premises are the
/// post-relation that `load_resource` ensures, applied to two consecutive
/// calls on a key that was untouched before the first.
pub proof fn law_load_signal_exactly_once(
    pre: TransactionDataCache,
    mid: TransactionDataCache,
    post: TransactionDataCache,
    addr: AccountAddress,
    ty: Type,
    sig1: Option<Option<u64>>,
    sig2: Option<Option<u64>>,
)
    requires
        pre.slot(addr, ty) is None,
        TransactionDataCache::load_resource_post(pre, mid, addr, ty, Ok(sig1)),
        TransactionDataCache::load_resource_post(mid, post, addr, ty, Ok(sig2)),
    ensures
        sig1 is Some,
        sig2 is None,
        post == mid,
{
}

/// Event order is preserved: two emissions append their events in call
/// order, whatever resource or module traffic happens in between (those
/// operations leave the event log unchanged, as their contracts state), and
/// the commit path maps the log to the output list index by index.
pub proof fn law_event_order_preserved(
    pre: TransactionDataCache,
    mid: TransactionDataCache,
    post: TransactionDataCache,
    e1: crate::data_cache::EventData,
    e2: crate::data_cache::EventData,
)
    requires
        mid.event_data@ == pre.event_data@.push(e1),
        post.event_data@ == mid.event_data@.push(e2),
    ensures
        post.event_data@.len() == pre.event_data@.len() + 2,
        post.event_data@[pre.event_data@.len() as int] == e1,
        post.event_data@[pre.event_data@.len() as int + 1] == e2,
        forall|i: int| 0 <= i < pre.event_data@.len() ==> post.event_data@[i] == pre.event_data@[i],
{
}

/// The struct tag a slot's type resolves to, when it resolves to one.
pub open spec fn tag_of_slot(
    loader: Loader,
    rs: Seq<(Type, (MoveTypeLayout, GlobalValue))>,
    j: int,
) -> Option<StructTag> {
    match loader.spec_tag(rs[j].0) {
        Some(TypeTag::Struct(st)) => Some(st),
        _ => None,
    }
}

/// Every key of the resource diff column is the tag of some slot that
/// contributed an operation.
pub proof fn lemma_resource_ops_keys(
    loader: Loader,
    rs: Seq<(Type, (MoveTypeLayout, GlobalValue))>,
    k: StructTag,
)
    requires
        assoc_has(spec_resource_ops(loader, rs), k),
    ensures
        exists|j: int|
            0 <= j < rs.len() && tag_of_slot(loader, rs, j) == Some(k) && spec_into_effect(
                #[trigger] rs[j].1.1,
            ) is Some,
    decreases rs.len(),
{
    let ops = spec_resource_ops(loader, rs);
    let prev = spec_resource_ops(loader, rs.drop_last());
    if rs.len() == 0 {
        let i = assoc_idx(ops, k);
        assert(false);
    } else {
        let p = rs.last();
        match spec_into_effect(p.1.1) {
            None => {
                lemma_resource_ops_keys(loader, rs.drop_last(), k);
                let j = choose|j: int|
                    0 <= j < rs.drop_last().len() && tag_of_slot(loader, rs.drop_last(), j) == Some(
                        k,
                    ) && spec_into_effect(#[trigger] rs.drop_last()[j].1.1) is Some;
                assert(rs[j] == rs.drop_last()[j]);
                assert(tag_of_slot(loader, rs, j) == Some(k) && spec_into_effect(rs[j].1.1) is Some);
            },
            Some(op) => {
                match loader.spec_tag(p.0) {
                    Some(TypeTag::Struct(st)) => {
                        if st == k {
                            assert(tag_of_slot(loader, rs, rs.len() - 1) == Some(k));
                            assert(spec_into_effect(rs[rs.len() - 1].1.1) is Some);
                        } else {
                            let i = assoc_idx(ops, k);
                            assert(0 <= i < ops.len() && ops[i].0 == k);
                            assert(assoc_has(prev, k)) by {
                                if assoc_has(prev, st) {
                                    let ui = assoc_idx(prev, st);
                                    assert(0 <= ui < prev.len() && prev[ui].0 == st);
                                    assert(ops == prev.update(ui, (st, spec_wrap_op(op, p.1.0))));
                                    if i == ui {
                                        assert(ops[i].0 == st);
                                        assert(false);
                                    }
                                    assert(prev[i].0 == k);
                                } else {
                                    assert(ops == prev.push((st, spec_wrap_op(op, p.1.0))));
                                    if i == prev.len() {
                                        assert(ops[i].0 == st);
                                        assert(false);
                                    }
                                    assert(prev[i].0 == k);
                                }
                            }
                            lemma_resource_ops_keys(loader, rs.drop_last(), k);
                            let j = choose|j: int|
                                0 <= j < rs.drop_last().len() && tag_of_slot(
                                    loader,
                                    rs.drop_last(),
                                    j,
                                ) == Some(k) && spec_into_effect(
                                    #[trigger] rs.drop_last()[j].1.1,
                                ) is Some;
                            assert(rs[j] == rs.drop_last()[j]);
                            assert(tag_of_slot(loader, rs, j) == Some(k) && spec_into_effect(
                                rs[j].1.1,
                            ) is Some);
                        }
                    },
                    _ => {
                        lemma_resource_ops_keys(loader, rs.drop_last(), k);
                        let j = choose|j: int|
                            0 <= j < rs.drop_last().len() && tag_of_slot(loader, rs.drop_last(), j)
                                == Some(k) && spec_into_effect(
                                #[trigger] rs.drop_last()[j].1.1,
                            ) is Some;
                        assert(rs[j] == rs.drop_last()[j]);
                        assert(tag_of_slot(loader, rs, j) == Some(k) && spec_into_effect(
                            rs[j].1.1,
                        ) is Some);
                    },
                }
            },
        }
    }
}

/// Three-way diff correctness for one slot, seen in the resource column of
/// its account's diff. Among slots whose tags are pairwise distinct (the
/// loader agrees with the VM's type system): a slot whose state did not
/// change is omitted; one that changed contributes exactly its create,
/// modify or delete, with the value and its layout kept.
pub proof fn law_diff_correctness(
    loader: Loader,
    rs: Seq<(Type, (MoveTypeLayout, GlobalValue))>,
    i: int,
    st: StructTag,
)
    requires
        0 <= i < rs.len(),
        tag_of_slot(loader, rs, i) == Some(st),
        forall|j: int|
            0 <= j < rs.len() && j != i ==> tag_of_slot(loader, rs, j) != tag_of_slot(loader, rs, i),
    ensures
        match spec_into_effect(rs[i].1.1) {
            None => !assoc_has(spec_resource_ops(loader, rs), st),
            Some(op) => assoc_get(spec_resource_ops(loader, rs), st) == Some(
                spec_wrap_op(op, rs[i].1.0),
            ),
        },
    decreases rs.len(),
{
    let ops = spec_resource_ops(loader, rs);
    let prev = spec_resource_ops(loader, rs.drop_last());
    let p = rs.last();
    lemma_resource_ops_unique(loader, rs.drop_last());
    if i == rs.len() - 1 {
        assert(!assoc_has(prev, st)) by {
            if assoc_has(prev, st) {
                lemma_resource_ops_keys(loader, rs.drop_last(), st);
                let j = choose|j: int|
                    0 <= j < rs.drop_last().len() && tag_of_slot(loader, rs.drop_last(), j) == Some(
                        st,
                    ) && spec_into_effect(#[trigger] rs.drop_last()[j].1.1) is Some;
                assert(rs[j] == rs.drop_last()[j]);
                assert(tag_of_slot(loader, rs, j) == Some(st));
                assert(false);
            }
        }
        match spec_into_effect(p.1.1) {
            None => {
                assert(ops == prev);
            },
            Some(op) => {
                assert(ops == prev.push((st, spec_wrap_op(op, p.1.0))));
                lemma_assoc_at_push(prev, st, spec_wrap_op(op, p.1.0));
            },
        }
    } else {
        assert(rs.drop_last()[i] == rs[i]);
        assert(tag_of_slot(loader, rs.drop_last(), i) == Some(st));
        assert forall|j: int| 0 <= j < rs.drop_last().len() && j != i implies tag_of_slot(
            loader,
            rs.drop_last(),
            j,
        ) != tag_of_slot(loader, rs.drop_last(), i) by {
            assert(rs.drop_last()[j] == rs[j]);
            assert(tag_of_slot(loader, rs, j) != tag_of_slot(loader, rs, i));
        }
        law_diff_correctness(loader, rs.drop_last(), i, st);
        match spec_into_effect(p.1.1) {
            None => {
                assert(ops == prev);
            },
            Some(op) => {
                match loader.spec_tag(p.0) {
                    Some(TypeTag::Struct(st2)) => {
                        assert(tag_of_slot(loader, rs, rs.len() - 1) == Some(st2));
                        assert(st2 != st);
                        lemma_put_preserves_other(prev, st2, spec_wrap_op(op, p.1.0), st);
                    },
                    _ => {
                        assert(ops == prev);
                    },
                }
            },
        }
    }
}

/// Looking up a key that was just pushed finds the pushed value, provided
/// the key was absent before; nothing else about the sequence matters.
proof fn lemma_assoc_at_push(s: Seq<(StructTag, Op<Data>)>, k: StructTag, v: Op<Data>)
    requires
        !assoc_has(s, k),
    ensures
        assoc_get(s.push((k, v)), k) == Some(v),
{
    let t = s.push((k, v));
    assert(t[s.len() as int].0 == k);
    assert(assoc_has(t, k));
    let i = assoc_idx(t, k);
    assert(0 <= i < t.len() && t[i].0 == k);
    if i < s.len() {
        assert(s[i].0 == k);
        assert(false);
    }
}

/// `assoc_put` at one key leaves lookups of a different key unchanged, with
/// no well-formedness assumption.
proof fn lemma_put_preserves_other(s: Seq<(StructTag, Op<Data>)>, k: StructTag, v: Op<Data>, k2: StructTag)
    requires
        k2 != k,
    ensures
        assoc_has(assoc_put(s, k, v), k2) == assoc_has(s, k2),
        assoc_has(s, k2) && unique_keys(s) ==> assoc_get(assoc_put(s, k, v), k2) == assoc_get(s, k2),
{
    let t = assoc_put(s, k, v);
    if assoc_has(s, k) {
        let i = assoc_idx(s, k);
        assert(0 <= i < s.len() && s[i].0 == k);
        if assoc_has(s, k2) {
            let m = assoc_idx(s, k2);
            assert(0 <= m < s.len() && s[m].0 == k2);
            assert(m != i);
            assert(t[m].0 == k2);
            assert(assoc_has(t, k2));
            if unique_keys(s) {
                lemma_assoc_put(s, k, v);
            }
        } else {
            if assoc_has(t, k2) {
                let m = assoc_idx(t, k2);
                assert(0 <= m < t.len() && t[m].0 == k2);
                assert(m != i);
                assert(s[m].0 == k2);
                assert(false);
            }
        }
    } else {
        if assoc_has(s, k2) {
            let m = assoc_idx(s, k2);
            assert(t[m].0 == k2);
            assert(assoc_has(t, k2));
            if unique_keys(s) {
                lemma_assoc_put(s, k, v);
            }
        } else {
            if assoc_has(t, k2) {
                let m = assoc_idx(t, k2);
                assert(0 <= m < t.len() && t[m].0 == k2);
                if m < s.len() {
                    assert(s[m].0 == k2);
                    assert(false);
                } else {
                    assert(t[m].0 == k);
                    assert(false);
                }
            }
        }
    }
}

/// Module diff has no no-op case: every name in an account's module write
/// set contributes exactly one operation, a modification when the write
/// republished an existing module, a creation otherwise.
pub proof fn law_module_diff_total(ms: Seq<(Identifier, (Vec<u8>, bool))>, i: int)
    requires
        unique_keys(ms),
        0 <= i < ms.len(),
    ensures
        assoc_get(spec_module_ops(ms), ms[i].0) == Some(
            if ms[i].1.1 {
                Op::Modify(ms[i].1.0)
            } else {
                Op::New(ms[i].1.0)
            },
        ),
{
    let ops = spec_module_ops(ms);
    assert(ops[i].0 == ms[i].0);
    assert(unique_keys(ops)) by {
        assert(forall|m: int| 0 <= m < ops.len() ==> (#[trigger] ops[m]).0 == ms[m].0);
    }
    lemma_assoc_at(ops, i);
}

/// An account's place in the committed change set: one with a non-empty
/// diff appears under its address carrying exactly its sorted diff columns;
/// one whose diff is empty is omitted. The premise is the relation
/// `into_effects` ensures between the consumed state and its output.
pub proof fn law_changeset_account(
    loader: Loader,
    s: Seq<(AccountAddress, AccountDataCache)>,
    cs: ChangeSet,
    i: int,
)
    requires
        changeset_post(loader, s, cs),
        unique_keys(s),
        0 <= i < s.len(),
    ensures
        diff_empty(loader, s[i].1) ==> !assoc_has(cs.accounts@, s[i].0),
        !diff_empty(loader, s[i].1) ==> (assoc_get(cs.accounts@, s[i].0) matches Some(acs)
            && account_cols_match(loader, s[i].1, acs)),
{
    lemma_assoc_at(s, i);
    assert(assoc_get(s, s[i].0) == Some(s[i].1));
}

/// Module diff has no no-op case, through the whole change set: a module
/// written under an address makes that account appear, carrying exactly one
/// operation for the name, by the republish flag.
pub proof fn law_module_write_included(
    loader: Loader,
    s: Seq<(AccountAddress, AccountDataCache)>,
    cs: ChangeSet,
    i: int,
    j: int,
)
    requires
        changeset_post(loader, s, cs),
        unique_keys(s),
        0 <= i < s.len(),
        unique_keys(s[i].1.module_map@),
        0 <= j < s[i].1.module_map@.len(),
    ensures
        ({
            let entry = s[i].1.module_map@[j];
            assoc_get(cs.accounts@, s[i].0) matches Some(acs) && assoc_get(
                acs.modules@,
                entry.0,
            ) == Some(
                if entry.1.1 {
                    Op::Modify(entry.1.0)
                } else {
                    Op::New(entry.1.0)
                },
            )
        }),
{
    law_changeset_account(loader, s, cs, i);
    assert(!diff_empty(loader, s[i].1));
    law_module_diff_total(s[i].1.module_map@, j);
}

/// Three-way diff correctness, through the whole change set: among slots
/// with pairwise distinct tags, a slot whose state did not change leaves no
/// operation under its tag, and one that changed leaves exactly its create,
/// modify or delete under its account and tag.
pub proof fn law_resource_diff_included(
    loader: Loader,
    s: Seq<(AccountAddress, AccountDataCache)>,
    cs: ChangeSet,
    i: int,
    j: int,
    st: StructTag,
)
    requires
        changeset_post(loader, s, cs),
        unique_keys(s),
        0 <= i < s.len(),
        0 <= j < s[i].1.data_map@.len(),
        tag_of_slot(loader, s[i].1.data_map@, j) == Some(st),
        forall|j2: int|
            0 <= j2 < s[i].1.data_map@.len() && j2 != j ==> tag_of_slot(loader, s[i].1.data_map@, j2)
                != tag_of_slot(loader, s[i].1.data_map@, j),
    ensures
        ({
            let slot = s[i].1.data_map@[j];
            match spec_into_effect(slot.1.1) {
                None => assoc_get(cs.accounts@, s[i].0) matches Some(acs) ==> !assoc_has(
                    acs.resources@,
                    st,
                ),
                Some(op) => assoc_get(cs.accounts@, s[i].0) matches Some(acs) && assoc_get(
                    acs.resources@,
                    st,
                ) == Some(spec_wrap_op(op, slot.1.0)),
            }
        }),
{
    let dm = s[i].1.data_map@;
    let rsrcs = spec_resource_ops(loader, dm);
    law_diff_correctness(loader, dm, j, st);
    law_changeset_account(loader, s, cs, i);
    match spec_into_effect(dm[j].1.1) {
        None => {
        },
        Some(op) => {
            assert(assoc_has(rsrcs, st));
            let m = assoc_idx(rsrcs, st);
            assert(0 <= m < rsrcs.len());
            assert(!diff_empty(loader, s[i].1));
        },
    }
}

} // verus!
