//! The transaction data cache: mediates every read and write of account
//! state during one transaction, against an immutable backing store, and at
//! commit condenses what it observed into a minimal change set plus the
//! ordered event log.
//!
//! Reads are lazy and served locally after the first touch of a key; writes
//! never reach the backing store. The cache is exclusively owned by one
//! transaction's execution and commits at most once, by value.

use vstd::prelude::*;

use crate::assoc::{assoc_get, assoc_has, assoc_idx, assoc_put, lemma_assoc_at, lemma_assoc_insert,
    lemma_assoc_put, unique_keys};
use crate::effects::{clone_bytes, find_account, find_module, find_resource, AccountChangeSet,
    ChangeSet, Data, Op};
use crate::errors::StatusCode;
use crate::ids::{AccountAddress, Identifier, ModuleId, StructTag, Type, TypeTag};
use crate::loader::Loader;
use crate::values::{decoding_of, deserialize_value, encoding_of, move_from_post, move_to_post,
    serialize_value, spec_into_effect, spec_is_mutated, write_value_post, GlobalDataStatus,
    GlobalValue};
use move_core_types::value::{MoveTypeLayout, MoveValue};

verus! {

/// What the cache holds for one touched address: the resources pulled in or
/// created by this transaction, each with its layout and its slot, and the
/// modules written by this transaction, each with its republish flag.
pub struct AccountDataCache {
    pub data_map: Vec<(Type, (MoveTypeLayout, GlobalValue))>,
    pub module_map: Vec<(Identifier, (Vec<u8>, bool))>,
}

impl AccountDataCache {
    /// Both key columns are pairwise distinct.
    pub open spec fn wf(self) -> bool {
        unique_keys(self.data_map@) && unique_keys(self.module_map@)
    }

    pub fn new() -> (r: Self)
        ensures
            r.data_map@ == Seq::<(Type, (MoveTypeLayout, GlobalValue))>::empty(),
            r.module_map@ == Seq::<(Identifier, (Vec<u8>, bool))>::empty(),
    {
        Self { data_map: Vec::new(), module_map: Vec::new() }
    }
}

/// A signal of one emitted event, in emission order: global unique id bytes,
/// sequence number, runtime type, layout, and the value itself.
pub type EventData = (Vec<u8>, u64, Type, MoveTypeLayout, MoveValue);

/// One event of the committed output: id bytes, sequence number, the type's
/// canonical tag, and the value's encoding.
pub type Event = (Vec<u8>, u64, TypeTag, Vec<u8>);

/// Position of `ty` among the resource slots, if present.
fn find_type<V>(entries: &Vec<(Type, V)>, ty: Type) -> (r: Option<usize>)
    ensures
        match r {
            Some(i) => i < entries@.len() && entries@[i as int].0 == ty,
            None => !assoc_has(entries@, ty),
        },
{
    let mut i: usize = 0;
    while i < entries.len()
        invariant
            i <= entries@.len(),
            forall|j: int| 0 <= j < i ==> entries@[j].0 != ty,
        decreases entries@.len() - i,
    {
        if entries[i].0 == ty {
            return Some(i);
        }
        i += 1;
    }
    None
}

/// The backing store the cache borrows: an immutable snapshot of committed
/// state, safe to query repeatedly. `Ok(None)` means genuine absence; `Err`
/// is reserved for storage-level failure.
pub trait RemoteCache {
    type Error;

    fn get_resource(&self, address: &AccountAddress, tag: &StructTag) -> Result<
        Option<Vec<u8>>,
        Self::Error,
    >;

    fn get_module(&self, module_id: &ModuleId) -> Result<Option<Vec<u8>>, Self::Error>;
}

/// What one key's first load installs and signals, for each answer the
/// backing store can give: nothing found installs an absent slot and
/// signals "not found"; bytes found decode into a clean cached slot, the
/// signal carrying their length for metering; bytes that do not decode are
/// a corrupted-storage condition; a store fault is an invariant violation.
pub fn resource_read_outcome<E>(found: Result<Option<Vec<u8>>, E>, layout: &MoveTypeLayout) -> (r:
    Result<(GlobalValue, Option<Option<u64>>), StatusCode>)
    ensures
        match found {
            Ok(opt) => match opt {
                None => r == Ok::<(GlobalValue, Option<Option<u64>>), StatusCode>(
                    (GlobalValue::Absent, Some(None)),
                ),
                Some(b) => match decoding_of(b@, *layout) {
                    Some(v) => r == Ok::<(GlobalValue, Option<Option<u64>>), StatusCode>(
                        ((GlobalValue::Cached { value: v, status: GlobalDataStatus::Clean }), Some(
                            Some(b@.len() as u64),
                        )),
                    ),
                    None => r == Err::<(GlobalValue, Option<Option<u64>>), StatusCode>(
                        StatusCode::FailedToDeserializeResource,
                    ),
                },
            },
            Err(_) => r == Err::<(GlobalValue, Option<Option<u64>>), StatusCode>(
                StatusCode::UnknownInvariantViolationError,
            ),
        },
{
    match found {
        Ok(None) => Ok((GlobalValue::none(), Some(None))),
        Ok(Some(blob)) => {
            let n = blob.len() as u64;
            match deserialize_value(&blob, layout) {
                Some(val) => Ok((GlobalValue::cached(val), Some(Some(n)))),
                None => Err(StatusCode::FailedToDeserializeResource),
            }
        },
        Err(_) => Err(StatusCode::UnknownInvariantViolationError),
    }
}

/// The read result for a module the local write set does not hold, for each
/// answer the backing store can give: the store's bytes unchanged; the
/// linker error for genuine absence (an unresolved reference, not a storage
/// fault); the invariant-violation code for a store fault.
pub fn module_read_outcome<E>(found: Result<Option<Vec<u8>>, E>) -> (r: Result<Vec<u8>, StatusCode>)
    ensures
        match found {
            Ok(Some(b)) => r == Ok::<Vec<u8>, StatusCode>(b),
            Ok(None) => r == Err::<Vec<u8>, StatusCode>(StatusCode::LinkerError),
            Err(_) => r == Err::<Vec<u8>, StatusCode>(StatusCode::UnknownInvariantViolationError),
        },
{
    match found {
        Ok(Some(bytes)) => Ok(bytes),
        Ok(None) => Err(StatusCode::LinkerError),
        Err(_) => Err(StatusCode::UnknownInvariantViolationError),
    }
}

/// The existence answer for a module the local write set does not hold, for
/// each answer the backing store can give; store faults surface as a plain
/// storage error, without the full diagnostic detail.
pub fn module_exists_outcome<E>(found: Result<Option<Vec<u8>>, E>) -> (r: Result<bool, StatusCode>)
    ensures
        match found {
            Ok(opt) => r == Ok::<bool, StatusCode>(opt is Some),
            Err(_) => r == Err::<bool, StatusCode>(StatusCode::StorageError),
        },
{
    match found {
        Ok(opt) => Ok(opt.is_some()),
        Err(_) => Err(StatusCode::StorageError),
    }
}

/// Whether some slot of the account differs from the pre-transaction view.
pub open spec fn any_mutated(acc: AccountDataCache) -> bool {
    exists|i: int| 0 <= i < acc.data_map@.len() && spec_is_mutated(acc.data_map@[i].1.1)
}

/// How many touched accounts besides the sender hold a mutated slot.
pub open spec fn count_mutated(
    s: Seq<(AccountAddress, AccountDataCache)>,
    sender: AccountAddress,
) -> nat
    decreases s.len(),
{
    if s.len() == 0 {
        0
    } else {
        count_mutated(s.drop_last(), sender) + if s.last().0 != sender && any_mutated(s.last().1) {
            1nat
        } else {
            0nat
        }
    }
}

/// The module column of one account's diff: every written module becomes
/// exactly one operation, a modification when it republishes an existing
/// module, a creation otherwise. There is no no-op case.
pub open spec fn spec_module_ops(ms: Seq<(Identifier, (Vec<u8>, bool))>) -> Seq<
    (Identifier, Op<Vec<u8>>),
> {
    ms.map_values(
        |p: (Identifier, (Vec<u8>, bool))|
            (p.0, if p.1.1 {
                Op::Modify(p.1.0)
            } else {
                Op::New(p.1.0)
            }),
    )
}

/// A slot's operation wrapped for the change set: the value is kept in its
/// decoded form together with its layout.
pub open spec fn spec_wrap_op(op: Op<MoveValue>, layout: MoveTypeLayout) -> Op<Data> {
    match op {
        Op::New(v) => Op::New(Data::Cached(v, layout)),
        Op::Modify(v) => Op::Modify(Data::Cached(v, layout)),
        Op::Delete => Op::Delete,
    }
}

/// The resource column of one account's diff: slots whose three-way diff is
/// a no-op are dropped entirely; the rest are keyed by their struct tag.
pub open spec fn spec_resource_ops(
    loader: Loader,
    rs: Seq<(Type, (MoveTypeLayout, GlobalValue))>,
) -> Seq<(StructTag, Op<Data>)>
    decreases rs.len(),
{
    if rs.len() == 0 {
        Seq::empty()
    } else {
        let prev = spec_resource_ops(loader, rs.drop_last());
        let p = rs.last();
        match spec_into_effect(p.1.1) {
            None => prev,
            Some(op) => match loader.spec_tag(p.0) {
                Some(TypeTag::Struct(st)) => assoc_put(prev, st, spec_wrap_op(op, p.1.0)),
                _ => prev,
            },
        }
    }
}

/// Every slot that contributes an operation has a type the loader resolves
/// to a struct tag.
pub open spec fn resource_tags_ok(
    loader: Loader,
    rs: Seq<(Type, (MoveTypeLayout, GlobalValue))>,
) -> bool {
    forall|i: int|
        0 <= i < rs.len() ==> (spec_into_effect(#[trigger] rs[i].1.1) is Some ==> (
        loader.spec_tag(rs[i].0) matches Some(TypeTag::Struct(_))))
}

/// `resource_tags_ok` over every touched account.
pub open spec fn tags_ok(loader: Loader, s: Seq<(AccountAddress, AccountDataCache)>) -> bool {
    forall|i: int| 0 <= i < s.len() ==> resource_tags_ok(loader, (#[trigger] s[i].1).data_map@)
}

/// The resource diff column never repeats a tag.
pub proof fn lemma_resource_ops_unique(
    loader: Loader,
    rs: Seq<(Type, (MoveTypeLayout, GlobalValue))>,
)
    ensures
        unique_keys(spec_resource_ops(loader, rs)),
    decreases rs.len(),
{
    if rs.len() > 0 {
        lemma_resource_ops_unique(loader, rs.drop_last());
        let prev = spec_resource_ops(loader, rs.drop_last());
        let p = rs.last();
        match spec_into_effect(p.1.1) {
            None => {},
            Some(op) => {
                match loader.spec_tag(p.0) {
                    Some(TypeTag::Struct(st)) => {
                        lemma_assoc_put(prev, st, spec_wrap_op(op, p.1.0));
                    },
                    _ => {},
                }
            },
        }
    }
}

/// Strict ordering of struct tags: by address, then module, then name.
pub open spec fn tag_lt(a: StructTag, b: StructTag) -> bool {
    ||| a.address.0 < b.address.0
    ||| (a.address.0 == b.address.0 && a.module.0 < b.module.0)
    ||| (a.address.0 == b.address.0 && a.module.0 == b.module.0 && a.name.0 < b.name.0)
}

/// Address keys strictly ascending.
pub open spec fn addr_sorted<V>(s: Seq<(AccountAddress, V)>) -> bool {
    forall|i: int, j: int| 0 <= i < j < s.len() ==> s[i].0.0 < s[j].0.0
}

/// Name keys strictly ascending.
pub open spec fn name_sorted<V>(s: Seq<(Identifier, V)>) -> bool {
    forall|i: int, j: int| 0 <= i < j < s.len() ==> s[i].0.0 < s[j].0.0
}

/// Tag keys strictly ascending.
pub open spec fn tag_sorted<V>(s: Seq<(StructTag, V)>) -> bool {
    forall|i: int, j: int| 0 <= i < j < s.len() ==> tag_lt(s[i].0, s[j].0)
}

/// Whether the account's diff is empty: no module written, and no slot that
/// contributes an operation.
pub open spec fn diff_empty(loader: Loader, acc: AccountDataCache) -> bool {
    acc.module_map@.len() == 0 && spec_resource_ops(loader, acc.data_map@).len() == 0
}

/// The columns of one committed account diff: each sorted ascending by its
/// key, and carrying exactly the account's module operations and resource
/// diffs, key by key.
pub open spec fn account_cols_match(
    loader: Loader,
    acc: AccountDataCache,
    acs: AccountChangeSet,
) -> bool {
    &&& name_sorted(acs.modules@)
    &&& unique_keys(acs.modules@)
    &&& forall|n: Identifier|
        #![trigger assoc_get(acs.modules@, n)]
        assoc_get(acs.modules@, n) == assoc_get(spec_module_ops(acc.module_map@), n)
    &&& tag_sorted(acs.resources@)
    &&& unique_keys(acs.resources@)
    &&& forall|st: StructTag|
        #![trigger assoc_get(acs.resources@, st)]
        assoc_get(acs.resources@, st) == assoc_get(spec_resource_ops(loader, acc.data_map@), st)
}

/// The change set a cache state condenses to: its accounts are exactly the
/// touched addresses with a non-empty diff, in ascending address order, and
/// each carries exactly its account's diff columns, sorted by key. Together
/// with the column conditions this pins the output uniquely, so two caches
/// holding equal state commit to identical change sets, whatever order they
/// were touched in.
pub open spec fn changeset_post(
    loader: Loader,
    s: Seq<(AccountAddress, AccountDataCache)>,
    cs: ChangeSet,
) -> bool {
    &&& addr_sorted(cs.accounts@)
    &&& unique_keys(cs.accounts@)
    &&& forall|a: AccountAddress|
        match #[trigger] assoc_get(s, a) {
            Some(acc) => if diff_empty(loader, acc) {
                !assoc_has(cs.accounts@, a)
            } else {
                assoc_get(cs.accounts@, a) matches Some(acs) && account_cols_match(
                    loader,
                    acc,
                    acs,
                )
            },
            None => !assoc_has(cs.accounts@, a),
        }
}

/// Keeps updates within a transaction so they can all be published at once
/// when the transaction succeeds. The interpreter reads and writes account
/// state through it; the client publishes the effects it condenses to.
pub struct TransactionDataCache {
    pub loader: Loader,
    pub account_map: Vec<(AccountAddress, AccountDataCache)>,
    pub event_data: Vec<EventData>,
}

impl TransactionDataCache {
    /// Keys are pairwise distinct at every level, and every emitted event
    /// has a type the loader knows.
    pub open spec fn wf(self) -> bool {
        &&& unique_keys(self.account_map@)
        &&& forall|i: int| 0 <= i < self.account_map@.len() ==> (#[trigger] self.account_map@[i].1).wf()
        &&& forall|i: int|
            0 <= i < self.event_data@.len() ==> self.loader.spec_tag(
                (#[trigger] self.event_data@[i]).2,
            ) is Some
    }

    /// The account entry for `addr`, if that address was touched.
    pub open spec fn account(self, addr: AccountAddress) -> Option<AccountDataCache> {
        assoc_get(self.account_map@, addr)
    }

    /// The layout and slot under `(addr, ty)`, if that key was touched.
    pub open spec fn slot(self, addr: AccountAddress, ty: Type) -> Option<
        (MoveTypeLayout, GlobalValue),
    > {
        match self.account(addr) {
            Some(acc) => assoc_get(acc.data_map@, ty),
            None => None,
        }
    }

    /// The bytes and republish flag of a module in the local write set.
    pub open spec fn local_module(self, id: ModuleId) -> Option<(Vec<u8>, bool)> {
        match self.account(id.address) {
            Some(acc) => assoc_get(acc.module_map@, id.name),
            None => None,
        }
    }

    /// Everything but the slot under `(addr, ty)` is as in `pre`; the
    /// account entry for `addr` exists afterwards.
    pub open spec fn untouched_but_slot(
        pre: Self,
        post: Self,
        addr: AccountAddress,
        ty: Type,
    ) -> bool {
        &&& post.loader == pre.loader
        &&& post.event_data == pre.event_data
        &&& post.account(addr) is Some
        &&& forall|a: AccountAddress| a != addr ==> post.account(a) == pre.account(a)
        &&& forall|t2: Type| t2 != ty ==> post.slot(addr, t2) == pre.slot(addr, t2)
        &&& forall|id: ModuleId| post.local_module(id) == pre.local_module(id)
    }

    /// The whole read/install contract of one `load_resource` call.
    ///
    /// An already-touched key returns no load signal and changes nothing. A
    /// first touch resolves the type, asks the backing store once, and
    /// installs a slot: clean-cached around the decoded value when bytes
    /// were found (the signal carries their length for metering), absent
    /// when nothing was found (the signal says so). Failures leave every
    /// slot as it was: an unknown type, a non-struct resource type, bytes
    /// that do not decode, and a backing-store fault each surface as their
    /// own status.
    pub open spec fn load_resource_post(
        pre: Self,
        post: Self,
        addr: AccountAddress,
        ty: Type,
        r: Result<Option<Option<u64>>, StatusCode>,
    ) -> bool {
        &&& post.wf()
        &&& Self::untouched_but_slot(pre, post, addr, ty)
        &&& match r {
            Ok(sig) => match sig {
                None => pre.slot(addr, ty) is Some && post == pre,
                Some(inner) => {
                    &&& pre.slot(addr, ty) is None
                    &&& pre.loader.spec_tag(ty) matches Some(TypeTag::Struct(_))
                    &&& match inner {
                        Some(n) => post.slot(addr, ty) matches Some(p) && p.0
                            == pre.loader.spec_layout(ty).unwrap() && (p.1 matches
                        GlobalValue::Cached { value: v, status: GlobalDataStatus::Clean } && (
                        exists|b: Seq<u8>|
                            #[trigger] decoding_of(b, pre.loader.spec_layout(ty).unwrap()) == Some(
                                v,
                            ) && n == b.len() as u64)),
                        None => post.slot(addr, ty) == Some(
                            (pre.loader.spec_layout(ty).unwrap(), GlobalValue::Absent),
                        ),
                    }
                },
            },
            Err(code) => {
                &&& pre.slot(addr, ty) is None
                &&& post.slot(addr, ty) is None
                &&& (code == StatusCode::TypeResolutionFailure <==> pre.loader.spec_tag(ty) is None)
                &&& (code == StatusCode::InternalTypeError <==> (pre.loader.spec_tag(ty) is Some
                    && !(pre.loader.spec_tag(ty) matches Some(TypeTag::Struct(_)))))
                &&& (code == StatusCode::TypeResolutionFailure || code
                    == StatusCode::InternalTypeError || code
                    == StatusCode::FailedToDeserializeResource || code
                    == StatusCode::UnknownInvariantViolationError)
            },
        }
    }

    pub fn new(loader: Loader) -> (r: Self)
        ensures
            r.loader == loader,
            r.account_map@ == Seq::<(AccountAddress, AccountDataCache)>::empty(),
            r.event_data@ == Seq::<EventData>::empty(),
            r.wf(),
    {
        TransactionDataCache { loader, account_map: Vec::new(), event_data: Vec::new() }
    }

    /// Index of the account entry for `addr`, creating an empty one on the
    /// first touch of that address.
    fn get_or_insert_account(&mut self, addr: AccountAddress) -> (i: usize)
        requires
            old(self).wf(),
        ensures
            final(self).wf(),
            i < final(self).account_map@.len(),
            final(self).account_map@[i as int].0 == addr,
            assoc_idx(final(self).account_map@, addr) == i as int,
            final(self).loader == old(self).loader,
            final(self).event_data == old(self).event_data,
            forall|a: AccountAddress|
                a != addr ==> final(self).account(a) == old(self).account(a),
            match assoc_get(old(self).account_map@, addr) {
                Some(acc) => *final(self) == *old(self) && final(self).account(addr) == Some(acc),
                None => {
                    &&& final(self).account_map@.len() == old(self).account_map@.len() + 1
                    &&& (forall|j: int|
                        0 <= j < old(self).account_map@.len() ==> final(self).account_map@[j] == old(
                            self,
                        ).account_map@[j])
                    &&& i as int == old(self).account_map@.len()
                    &&& final(self).account(addr) matches Some(acc2) && acc2.data_map@ == Seq::<
                        (Type, (MoveTypeLayout, GlobalValue)),
                    >::empty() && acc2.module_map@ == Seq::<(Identifier, (Vec<u8>, bool))>::empty()
                },
            },
    {
        match find_account(&self.account_map, addr) {
            Some(i) => {
                proof {
                    lemma_assoc_at(self.account_map@, i as int);
                }
                i
            },
            None => {
                let ghost pre = self.account_map@;
                self.account_map.push((addr, AccountDataCache::new()));
                proof {
                    assert(self.account_map@ =~= assoc_put(
                        pre,
                        addr,
                        self.account_map@[pre.len() as int].1,
                    ));
                    lemma_assoc_put(pre, addr, self.account_map@[pre.len() as int].1);
                    lemma_assoc_at(self.account_map@, pre.len() as int);
                }
                self.account_map.len() - 1
            },
        }
    }

    /// Retrieves the slot for `(addr, ty)`, loading it from the backing
    /// store into the cache on the first touch of that key; every
    /// subsequent access is served locally. The signal is `Some` exactly on
    /// first touch, carrying the stored byte length or `None` for absence,
    /// so metering can charge each key once.
    pub fn load_resource<S: RemoteCache>(
        &mut self,
        remote: &S,
        addr: AccountAddress,
        ty: Type,
    ) -> (r: Result<Option<Option<u64>>, StatusCode>)
        requires
            old(self).wf(),
        ensures
            Self::load_resource_post(*old(self), *final(self), addr, ty, r),
    {
        let aidx = self.get_or_insert_account(addr);
        let ghost mid = *self;
        if find_type(&self.account_map[aidx].1.data_map, ty).is_some() {
            proof {
                lemma_assoc_at(self.account_map@, aidx as int);
            }
            return Ok(None);
        }
        proof {
            lemma_assoc_at(self.account_map@, aidx as int);
        }
        let tag = match self.loader.type_to_type_tag(&ty) {
            Ok(TypeTag::Struct(st)) => st,
            Ok(_) => {
                return Err(StatusCode::InternalTypeError);
            },
            Err(e) => {
                return Err(e);
            },
        };
        let layout = match self.loader.type_to_type_layout(&ty) {
            Ok(l) => l,
            Err(e) => {
                return Err(e);
            },
        };
        let answer = remote.get_resource(&addr, &tag);
        let ghost ganswer = answer;
        let (gv, load_res) = match resource_read_outcome(answer, &layout) {
            Ok(p) => p,
            Err(e) => {
                return Err(e);
            },
        };
        proof {
            match ganswer {
                Ok(opt) => match opt {
                    Some(b) => {
                        assert(decoding_of(b@, layout) matches Some(v) && gv
                            == (GlobalValue::Cached {
                            value: v,
                            status: GlobalDataStatus::Clean,
                        }));
                    },
                    None => {},
                },
                Err(_) => {},
            }
        }
        let ghost dm0 = mid.account_map@[aidx as int].1.data_map@;
        let entry = &mut self.account_map[aidx];
        entry.1.data_map.push((ty, (layout, gv)));
        proof {
            lemma_assoc_put(dm0, ty, (layout, gv));
            assert(self.account_map@ =~= assoc_put(
                mid.account_map@,
                addr,
                self.account_map@[aidx as int].1,
            ));
            lemma_assoc_put(mid.account_map@, addr, self.account_map@[aidx as int].1);
        }
        Ok(load_res)
    }

    /// The module's bytes: from the local write set when this transaction
    /// published it (a write must be visible to later reads), else from the
    /// backing store. A module found nowhere is a linker error; a
    /// backing-store fault is an invariant violation.
    pub fn load_module<S: RemoteCache>(&self, remote: &S, module_id: &ModuleId) -> (r: Result<
        Vec<u8>,
        StatusCode,
    >)
        requires
            self.wf(),
        ensures
            self.local_module(*module_id) matches Some(p) ==> r matches Ok(b) && b@ == p.0@,
            r is Err ==> self.local_module(*module_id) is None && (r == Err::<Vec<u8>, StatusCode>(
                StatusCode::LinkerError,
            ) || r == Err::<Vec<u8>, StatusCode>(StatusCode::UnknownInvariantViolationError)),
    {
        if let Some(i) = find_account(&self.account_map, module_id.address) {
            proof {
                lemma_assoc_at(self.account_map@, i as int);
            }
            if let Some(j) = find_module(&self.account_map[i].1.module_map, module_id.name) {
                proof {
                    lemma_assoc_at(self.account_map@[i as int].1.module_map@, j as int);
                }
                return Ok(clone_bytes(&self.account_map[i].1.module_map[j].1.0));
            }
        }
        module_read_outcome(remote.get_module(module_id))
    }

    /// Whether the module exists, checking the local write set first.
    /// Backing-store faults surface as a plain storage error: existence
    /// checks do not need the full diagnostic detail.
    pub fn exists_module<S: RemoteCache>(&self, remote: &S, module_id: &ModuleId) -> (r: Result<
        bool,
        StatusCode,
    >)
        requires
            self.wf(),
        ensures
            self.local_module(*module_id) is Some ==> r == Ok::<bool, StatusCode>(true),
            r is Err ==> self.local_module(*module_id) is None && r == Err::<bool, StatusCode>(
                StatusCode::StorageError,
            ),
    {
        if let Some(i) = find_account(&self.account_map, module_id.address) {
            proof {
                lemma_assoc_at(self.account_map@, i as int);
            }
            if let Some(j) = find_module(&self.account_map[i].1.module_map, module_id.name) {
                proof {
                    lemma_assoc_at(self.account_map@[i as int].1.module_map@, j as int);
                }
                return Ok(true);
            }
        }
        module_exists_outcome(remote.get_module(module_id))
    }

    /// Writes the module to the local write set, never to the backing
    /// store. The republish flag is supplied by the caller, who already
    /// knows whether a module of this name existed, and is stored verbatim;
    /// a second write to the same name replaces bytes and flag.
    pub fn publish_module(&mut self, module_id: &ModuleId, blob: Vec<u8>, is_republishing: bool)
        -> (r: Result<(), StatusCode>)
        requires
            old(self).wf(),
        ensures
            r is Ok,
            final(self).wf(),
            final(self).loader == old(self).loader,
            final(self).event_data == old(self).event_data,
            final(self).local_module(*module_id) == Some((blob, is_republishing)),
            forall|id2: ModuleId|
                id2 != *module_id ==> final(self).local_module(id2) == old(self).local_module(id2),
            forall|a: AccountAddress, t: Type| final(self).slot(a, t) == old(self).slot(a, t),
            forall|a: AccountAddress|
                a != module_id.address ==> final(self).account(a) == old(self).account(a),
    {
        let aidx = self.get_or_insert_account(module_id.address);
        let ghost mid = *self;
        proof {
            lemma_assoc_at(self.account_map@, aidx as int);
        }
        let ghost mm0 = mid.account_map@[aidx as int].1.module_map@;
        let entry = &mut self.account_map[aidx];
        match find_module(&entry.1.module_map, module_id.name) {
            Some(j) => {
                proof {
                    lemma_assoc_at(mm0, j as int);
                }
                entry.1.module_map[j] = (module_id.name, (blob, is_republishing));
            },
            None => {
                entry.1.module_map.push((module_id.name, (blob, is_republishing)));
            },
        }
        proof {
            lemma_assoc_put(mm0, module_id.name, (blob, is_republishing));
            assert(self.account_map@[aidx as int].1.module_map@ =~= assoc_put(
                mm0,
                module_id.name,
                (blob, is_republishing),
            ));
            assert(self.account_map@ =~= assoc_put(
                mid.account_map@,
                module_id.address,
                self.account_map@[aidx as int].1,
            ));
            lemma_assoc_put(mid.account_map@, module_id.address, self.account_map@[aidx as int].1);
        }
        Ok(())
    }

    /// Appends an event to the ordered log; its layout is resolved now, its
    /// serialization deferred to commit. Emission order is observable and
    /// preserved.
    pub fn emit_event(&mut self, guid: Vec<u8>, seq_num: u64, ty: Type, val: MoveValue) -> (r:
        Result<(), StatusCode>)
        requires
            old(self).wf(),
        ensures
            final(self).wf(),
            match old(self).loader.spec_layout(ty) {
                None => r == Err::<(), StatusCode>(StatusCode::TypeResolutionFailure) && *final(self)
                    == *old(self),
                Some(l) => r is Ok && final(self).event_data@ == old(self).event_data@.push(
                    (guid, seq_num, ty, l, val),
                ) && final(self).account_map == old(self).account_map && final(self).loader == old(
                    self,
                ).loader,
            },
    {
        let layout = match self.loader.type_to_type_layout(&ty) {
            Ok(l) => l,
            Err(e) => {
                return Err(e);
            },
        };
        self.event_data.push((guid, seq_num, ty, layout, val));
        Ok(())
    }

    /// The events emitted so far, in emission order.
    pub fn events(&self) -> (r: &Vec<EventData>)
        ensures
            r == self.event_data,
    {
        &self.event_data
    }

    /// Applies the interpreter's publish of `value` into the slot under
    /// `(addr, ty)`, which must have been loaded first.
    pub fn move_resource_to(&mut self, addr: AccountAddress, ty: Type, value: MoveValue) -> (r:
        Result<(), StatusCode>)
        requires
            old(self).wf(),
        ensures
            final(self).wf(),
            match old(self).slot(addr, ty) {
                None => r == Err::<(), StatusCode>(StatusCode::MissingData) && *final(self) == *old(
                    self,
                ),
                Some(p) => {
                    &&& Self::untouched_but_slot(*old(self), *final(self), addr, ty)
                    &&& final(self).slot(addr, ty) matches Some(q) && q.0 == p.0 && move_to_post(
                        p.1,
                        q.1,
                        value,
                        r,
                    )
                },
            },
    {
        let aidx = match find_account(&self.account_map, addr) {
            Some(i) => i,
            None => {
                return Err(StatusCode::MissingData);
            },
        };
        proof {
            lemma_assoc_at(self.account_map@, aidx as int);
        }
        let sidx = match find_type(&self.account_map[aidx].1.data_map, ty) {
            Some(j) => j,
            None => {
                return Err(StatusCode::MissingData);
            },
        };
        let ghost pre = *self;
        let ghost dm0 = self.account_map@[aidx as int].1.data_map@;
        proof {
            lemma_assoc_at(dm0, sidx as int);
        }
        let entry = &mut self.account_map[aidx];
        let slot = &mut entry.1.data_map[sidx];
        let r = slot.1.1.move_to(value);
        proof {
            lemma_assoc_put(dm0, ty, self.account_map@[aidx as int].1.data_map@[sidx as int].1);
            assert(self.account_map@[aidx as int].1.data_map@ =~= assoc_put(
                dm0,
                ty,
                self.account_map@[aidx as int].1.data_map@[sidx as int].1,
            ));
            assert(self.account_map@ =~= assoc_put(
                pre.account_map@,
                addr,
                self.account_map@[aidx as int].1,
            ));
            lemma_assoc_put(pre.account_map@, addr, self.account_map@[aidx as int].1);
        }
        r
    }

    /// Applies the interpreter's move of the resource out of the slot under
    /// `(addr, ty)`, which must have been loaded first.
    pub fn move_resource_from(&mut self, addr: AccountAddress, ty: Type) -> (r: Result<
        MoveValue,
        StatusCode,
    >)
        requires
            old(self).wf(),
        ensures
            final(self).wf(),
            match old(self).slot(addr, ty) {
                None => r == Err::<MoveValue, StatusCode>(StatusCode::MissingData) && *final(self)
                    == *old(self),
                Some(p) => {
                    &&& Self::untouched_but_slot(*old(self), *final(self), addr, ty)
                    &&& final(self).slot(addr, ty) matches Some(q) && q.0 == p.0 && move_from_post(
                        p.1,
                        q.1,
                        r,
                    )
                },
            },
    {
        let aidx = match find_account(&self.account_map, addr) {
            Some(i) => i,
            None => {
                return Err(StatusCode::MissingData);
            },
        };
        proof {
            lemma_assoc_at(self.account_map@, aidx as int);
        }
        let sidx = match find_type(&self.account_map[aidx].1.data_map, ty) {
            Some(j) => j,
            None => {
                return Err(StatusCode::MissingData);
            },
        };
        let ghost pre = *self;
        let ghost dm0 = self.account_map@[aidx as int].1.data_map@;
        proof {
            lemma_assoc_at(dm0, sidx as int);
        }
        let entry = &mut self.account_map[aidx];
        let slot = &mut entry.1.data_map[sidx];
        let r = slot.1.1.move_from();
        proof {
            lemma_assoc_put(dm0, ty, self.account_map@[aidx as int].1.data_map@[sidx as int].1);
            assert(self.account_map@[aidx as int].1.data_map@ =~= assoc_put(
                dm0,
                ty,
                self.account_map@[aidx as int].1.data_map@[sidx as int].1,
            ));
            assert(self.account_map@ =~= assoc_put(
                pre.account_map@,
                addr,
                self.account_map@[aidx as int].1,
            ));
            lemma_assoc_put(pre.account_map@, addr, self.account_map@[aidx as int].1);
        }
        r
    }

    /// Applies the interpreter's write through the slot under `(addr, ty)`,
    /// which must have been loaded first.
    pub fn write_resource(&mut self, addr: AccountAddress, ty: Type, value: MoveValue) -> (r:
        Result<(), StatusCode>)
        requires
            old(self).wf(),
        ensures
            final(self).wf(),
            match old(self).slot(addr, ty) {
                None => r == Err::<(), StatusCode>(StatusCode::MissingData) && *final(self) == *old(
                    self,
                ),
                Some(p) => {
                    &&& Self::untouched_but_slot(*old(self), *final(self), addr, ty)
                    &&& final(self).slot(addr, ty) matches Some(q) && q.0 == p.0 && write_value_post(
                        p.1,
                        q.1,
                        value,
                        r,
                    )
                },
            },
    {
        let aidx = match find_account(&self.account_map, addr) {
            Some(i) => i,
            None => {
                return Err(StatusCode::MissingData);
            },
        };
        proof {
            lemma_assoc_at(self.account_map@, aidx as int);
        }
        let sidx = match find_type(&self.account_map[aidx].1.data_map, ty) {
            Some(j) => j,
            None => {
                return Err(StatusCode::MissingData);
            },
        };
        let ghost pre = *self;
        let ghost dm0 = self.account_map@[aidx as int].1.data_map@;
        proof {
            lemma_assoc_at(dm0, sidx as int);
        }
        let entry = &mut self.account_map[aidx];
        let slot = &mut entry.1.data_map[sidx];
        let r = slot.1.1.write_value(value);
        proof {
            lemma_assoc_put(dm0, ty, self.account_map@[aidx as int].1.data_map@[sidx as int].1);
            assert(self.account_map@[aidx as int].1.data_map@ =~= assoc_put(
                dm0,
                ty,
                self.account_map@[aidx as int].1.data_map@[sidx as int].1,
            ));
            assert(self.account_map@ =~= assoc_put(
                pre.account_map@,
                addr,
                self.account_map@[aidx as int].1,
            ));
            lemma_assoc_put(pre.account_map@, addr, self.account_map@[aidx as int].1);
        }
        r
    }

    /// How many accounts this transaction mutates: the sender is counted
    /// unconditionally (it always incurs at least a sequence-number bump),
    /// and every other touched account with at least one mutated slot adds
    /// one. Read-only: usable before or instead of commit.
    pub fn num_mutated_accounts(&self, sender: &AccountAddress) -> (r: u64)
        requires
            self.account_map@.len() < u64::MAX,
        ensures
            r as int == 1 + count_mutated(self.account_map@, *sender),
            r >= 1,
    {
        let mut total: u64 = 1;
        let mut k: usize = 0;
        while k < self.account_map.len()
            invariant
                k <= self.account_map@.len(),
                self.account_map@.len() < u64::MAX,
                total as int == 1 + count_mutated(self.account_map@.take(k as int), *sender),
                total as int <= 1 + k as int,
            decreases self.account_map@.len() - k,
        {
            let entry = &self.account_map[k];
            if !(entry.0 == *sender) && account_any_mutated(&entry.1) {
                total = total + 1;
            }
            proof {
                assert(self.account_map@.take(k + 1 as int).drop_last() =~= self.account_map@.take(
                    k as int,
                ));
                assert(self.account_map@.take(k + 1 as int).last() == self.account_map@[k as int]);
            }
            k = k + 1;
        }
        proof {
            assert(self.account_map@.take(self.account_map@.len() as int) =~= self.account_map@);
        }
        total
    }
}

impl TransactionDataCache {
    /// Consumes the cache and condenses it into the transaction's effects:
    /// the change set, in ascending key order at every level, plus the
    /// emitted events in emission order, each event value encoded. Module
    /// writes always yield an operation; resource slots contribute their
    /// three-way diff, no-ops dropped; accounts with nothing to report are
    /// omitted. A resource type that no longer resolves to a struct tag is
    /// an internal type error; an event value that cannot be encoded is
    /// too.
    #[verifier::loop_isolation(false)]
    pub fn into_effects(self) -> (r: Result<(ChangeSet, Vec<Event>), StatusCode>)
        requires
            self.wf(),
        ensures
            match r {
                Ok(out) => {
                    &&& tags_ok(self.loader, self.account_map@)
                    &&& out.0.wf()
                    &&& changeset_post(self.loader, self.account_map@, out.0)
                    &&& out.1@.len() == self.event_data@.len()
                    &&& forall|i: int|
                        0 <= i < out.1@.len() ==> (#[trigger] out.1@[i]).0@ == self.event_data@[i].0@
                            && out.1@[i].1 == self.event_data@[i].1 && self.loader.spec_tag(
                            self.event_data@[i].2,
                        ) == Some(out.1@[i].2) && encoding_of(self.event_data@[i].4) == Some(
                            out.1@[i].3@,
                        )
                },
                Err(code) => (code == StatusCode::InternalTypeError || code
                    == StatusCode::TypeResolutionFailure) && (!tags_ok(
                    self.loader,
                    self.account_map@,
                ) || exists|i: int|
                    0 <= i < self.event_data@.len() && encoding_of(
                        (#[trigger] self.event_data@[i]).4,
                    ) is None),
            },
            (tags_ok(self.loader, self.account_map@) && (forall|i: int|
                0 <= i < self.event_data@.len() ==> encoding_of(
                    (#[trigger] self.event_data@[i]).4,
                ) is Some)) ==> r is Ok,
    {
        let ghost self0 = self;
        let TransactionDataCache { loader, account_map: mut accounts, event_data: mut ev } = self;
        let ghost orig = self0.account_map@;
        let ghost ev_orig = self0.event_data@;
        let mut out_accounts: Vec<(AccountAddress, AccountChangeSet)> = Vec::new();
        let ghost k: int = 0;
        while accounts.len() > 0
            invariant
                self0.wf(),
                loader == self0.loader,
                0 <= k <= orig.len(),
                accounts@ == orig.subrange(k, orig.len() as int),
                addr_sorted(out_accounts@),
                unique_keys(out_accounts@),
                forall|i: int| 0 <= i < out_accounts@.len() ==> (#[trigger] out_accounts@[i].1).wf(),
                forall|a: AccountAddress|
                    match #[trigger] assoc_get(orig.take(k), a) {
                        Some(acc2) => if diff_empty(loader, acc2) {
                            !assoc_has(out_accounts@, a)
                        } else {
                            assoc_get(out_accounts@, a) matches Some(acs2) && account_cols_match(
                                loader,
                                acc2,
                                acs2,
                            )
                        },
                        None => !assoc_has(out_accounts@, a),
                    },
                forall|j: int| 0 <= j < k ==> resource_tags_ok(loader, (#[trigger] orig[j].1).data_map@),
            decreases accounts@.len(),
        {
            let (addr, acc) = accounts.remove(0);
            proof {
                assert(accounts@ =~= orig.subrange(k + 1, orig.len() as int));
                assert((addr, acc) == orig[k]);
                assert(orig[k].1.wf());
                if assoc_has(orig.take(k), addr) {
                    let j = assoc_idx(orig.take(k), addr);
                    assert(0 <= j < k && orig.take(k)[j].0 == addr);
                    assert(orig[j].0 == orig[k].0);
                    assert(false);
                }
            }
            let ghost mm_orig = acc.module_map@;
            let ghost dm_orig = acc.data_map@;
            let mut modules: Vec<(Identifier, Op<Vec<u8>>)> = Vec::new();
            let mut mm = acc.module_map;
            let ghost jm: int = 0;
            while mm.len() > 0
                invariant
                    unique_keys(mm_orig),
                    0 <= jm <= mm_orig.len(),
                    mm@ == mm_orig.subrange(jm, mm_orig.len() as int),
                    name_sorted(modules@),
                    unique_keys(modules@),
                    modules@.len() == jm,
                    forall|n: Identifier|
                        #![trigger assoc_get(modules@, n)]
                        assoc_get(modules@, n) == assoc_get(
                            spec_module_ops(mm_orig.take(jm)),
                            n,
                        ),
                decreases mm@.len(),
            {
                let (name, (blob, is_republishing)) = mm.remove(0);
                proof {
                    assert(mm@ =~= mm_orig.subrange(jm + 1, mm_orig.len() as int));
                    assert((name, (blob, is_republishing)) == mm_orig[jm]);
                }
                let op = if is_republishing {
                    Op::Modify(blob)
                } else {
                    Op::New(blob)
                };
                proof {
                    let smo = spec_module_ops(mm_orig.take(jm));
                    assert(forall|m: int| 0 <= m < jm ==> (#[trigger] smo[m]).0 == mm_orig[m].0);
                    assert(unique_keys(smo));
                    if assoc_has(smo, name) {
                        let m = assoc_idx(smo, name);
                        assert(0 <= m < jm && smo[m].0 == name);
                        assert(mm_orig[m].0 == mm_orig[jm].0);
                        assert(false);
                    }
                    assert(spec_module_ops(mm_orig.take(jm + 1)) =~= smo.push((name, op)));
                    lemma_assoc_put(smo, name, op);
                    assert(assoc_put(smo, name, op) == smo.push((name, op)));
                    assert(!assoc_has(modules@, name)) by {
                        if assoc_has(modules@, name) {
                            lemma_assoc_at(modules@, assoc_idx(modules@, name));
                        }
                    }
                }
                insert_sorted_name(&mut modules, name, op);
                proof {
                    assert forall|n: Identifier|
                        assoc_get(modules@, n) == assoc_get(
                            spec_module_ops(mm_orig.take(jm + 1)),
                            n,
                        ) by {
                        if n != name {
                        }
                    }
                    jm = jm + 1;
                }
            }
            proof {
                assert(mm_orig.take(mm_orig.len() as int) =~= mm_orig);
            }
            let mut resources: Vec<(StructTag, Op<Data>)> = Vec::new();
            let mut dm = acc.data_map;
            let ghost jd: int = 0;
            while dm.len() > 0
                invariant
                    self0.wf(),
                    loader == self0.loader,
                    0 <= k < orig.len(),
                    (addr, acc) == orig[k],
                    mm_orig == acc.module_map@,
                    dm_orig == acc.data_map@,
                    0 <= jd <= dm_orig.len(),
                    dm@ == dm_orig.subrange(jd, dm_orig.len() as int),
                    tag_sorted(resources@),
                    unique_keys(resources@),
                    forall|st2: StructTag|
                        #![trigger assoc_get(resources@, st2)]
                        assoc_get(resources@, st2) == assoc_get(
                            spec_resource_ops(loader, dm_orig.take(jd)),
                            st2,
                        ),
                    forall|m: int|
                        0 <= m < jd ==> (spec_into_effect(#[trigger] dm_orig[m].1.1) is Some ==> (
                        loader.spec_tag(dm_orig[m].0) matches Some(TypeTag::Struct(_)))),
                decreases dm@.len(),
            {
                let (ty, (layout, gv)) = dm.remove(0);
                proof {
                    assert(dm@ =~= dm_orig.subrange(jd + 1, dm_orig.len() as int));
                    assert((ty, (layout, gv)) == dm_orig[jd]);
                    assert(dm_orig.take(jd + 1).drop_last() =~= dm_orig.take(jd));
                    assert(dm_orig.take(jd + 1).last() == dm_orig[jd]);
                }
                match gv.into_effect() {
                    None => {
                        proof {
                            assert(spec_resource_ops(loader, dm_orig.take(jd + 1))
                                == spec_resource_ops(loader, dm_orig.take(jd)));
                        }
                    },
                    Some(op) => {
                        let tag = match loader.type_to_type_tag(&ty) {
                            Ok(t) => t,
                            Err(e) => {
                                proof {
                                    lemma_bad_tag_witness(loader, orig, k, jd);
                                }
                                return Err(e);
                            },
                        };
                        let st = match tag {
                            TypeTag::Struct(st) => st,
                            _ => {
                                proof {
                                    lemma_bad_tag_witness(loader, orig, k, jd);
                                }
                                return Err(StatusCode::InternalTypeError);
                            },
                        };
                        let data_op = match op {
                            Op::New(v) => Op::New(Data::Cached(v, layout)),
                            Op::Modify(v) => Op::Modify(Data::Cached(v, layout)),
                            Op::Delete => Op::Delete,
                        };
                        let ghost prevspec = spec_resource_ops(loader, dm_orig.take(jd));
                        proof {
                            lemma_resource_ops_unique(loader, dm_orig.take(jd));
                            assert(data_op == spec_wrap_op(op, layout));
                            assert(spec_resource_ops(loader, dm_orig.take(jd + 1)) == assoc_put(
                                prevspec,
                                st,
                                data_op,
                            ));
                            lemma_assoc_put(prevspec, st, data_op);
                        }
                        let ghost respre = resources@;
                        match find_resource(&resources, st) {
                            Some(i) => {
                                proof {
                                    lemma_assoc_at(respre, i as int);
                                    lemma_assoc_put(respre, st, data_op);
                                }
                                resources[i] = (st, data_op);
                                proof {
                                    assert(resources@ == assoc_put(respre, st, data_op));
                                    assert(tag_sorted(resources@)) by {
                                        assert(forall|m: int|
                                            0 <= m < resources@.len() ==> (
                                            #[trigger] resources@[m]).0 == respre[m].0);
                                    }
                                }
                            },
                            None => {
                                insert_sorted_tag(&mut resources, st, data_op);
                            },
                        }
                        proof {
                            assert forall|st2: StructTag|
                                assoc_get(resources@, st2) == assoc_get(
                                    spec_resource_ops(loader, dm_orig.take(jd + 1)),
                                    st2,
                                ) by {
                                if st2 == st {
                                    assert(assoc_get(resources@, st) == Some(data_op));
                                    assert(assoc_get(
                                        spec_resource_ops(loader, dm_orig.take(jd + 1)),
                                        st,
                                    ) == Some(data_op));
                                } else {
                                    assert(assoc_get(resources@, st2) == assoc_get(respre, st2));
                                    assert(assoc_get(
                                        spec_resource_ops(loader, dm_orig.take(jd + 1)),
                                        st2,
                                    ) == assoc_get(prevspec, st2));
                                }
                            }
                        }
                    },
                }
                proof {
                    jd = jd + 1;
                }
            }
            proof {
                assert(dm_orig.take(dm_orig.len() as int) =~= dm_orig);
                assert(resource_tags_ok(loader, dm_orig));
                assert(orig.take(k + 1) =~= assoc_put(orig.take(k), addr, acc));
                lemma_assoc_put(orig.take(k), addr, acc);
            }
            if !(modules.is_empty() && resources.is_empty()) {
                proof {
                    if spec_resource_ops(loader, dm_orig).len() == 0 && resources@.len() > 0 {
                        lemma_assoc_at(resources@, 0);
                        assert(false);
                    }
                    assert(!diff_empty(loader, acc));
                    assert(assoc_get(orig.take(k), addr) is None);
                    assert(!assoc_has(out_accounts@, addr));
                }
                let acs = AccountChangeSet::from_modules_resources(modules, resources);
                let ghost outpre = out_accounts@;
                insert_sorted_addr(&mut out_accounts, addr, acs);
                proof {
                    let p = choose|p: int|
                        0 <= p <= outpre.len() && out_accounts@ == outpre.insert(p, (addr, acs));
                    assert(forall|i: int|
                        #![trigger out_accounts@[i]]
                        0 <= i < out_accounts@.len() ==> out_accounts@[i] == (addr, acs) || (
                        exists|j: int|
                            #![trigger outpre[j]]
                            0 <= j < outpre.len() && outpre[j] == out_accounts@[i])) by {
                        assert(forall|m: int| 0 <= m < p ==> out_accounts@[m] == outpre[m]);
                        assert(out_accounts@[p] == (addr, acs));
                        assert(forall|m: int|
                            p < m < out_accounts@.len() ==> out_accounts@[m] == outpre[m - 1]);
                    }
                    assert(acs.wf());
                    assert forall|a: AccountAddress|
                        #![trigger assoc_get(orig.take(k + 1), a)]
                        match assoc_get(orig.take(k + 1), a) {
                            Some(acc2) => if diff_empty(loader, acc2) {
                                !assoc_has(out_accounts@, a)
                            } else {
                                assoc_get(out_accounts@, a) matches Some(acs2)
                                    && account_cols_match(loader, acc2, acs2)
                            },
                            None => !assoc_has(out_accounts@, a),
                        } by {
                        if a == addr {
                            assert(assoc_get(orig.take(k + 1), a) == Some(acc));
                            assert(assoc_get(out_accounts@, a) == Some(acs));
                        } else {
                            assert(assoc_get(orig.take(k + 1), a) == assoc_get(orig.take(k), a));
                            assert(assoc_get(out_accounts@, a) == assoc_get(outpre, a));
                            if assoc_get(outpre, a) is None && assoc_has(out_accounts@, a) {
                                assert(false);
                            }
                        }
                    }
                }
            } else {
                proof {
                    lemma_resource_ops_unique(loader, dm_orig);
                    if spec_resource_ops(loader, dm_orig).len() > 0 {
                        lemma_assoc_at(spec_resource_ops(loader, dm_orig), 0);
                        let key0 = spec_resource_ops(loader, dm_orig)[0].0;
                        assert(assoc_get(resources@, key0) == Some(
                            spec_resource_ops(loader, dm_orig)[0].1,
                        ));
                        assert(assoc_has(resources@, key0));
                        let m = assoc_idx(resources@, key0);
                        assert(false);
                    }
                    assert(diff_empty(loader, acc));
                    assert forall|a: AccountAddress|
                        #![trigger assoc_get(orig.take(k + 1), a)]
                        match assoc_get(orig.take(k + 1), a) {
                            Some(acc2) => if diff_empty(loader, acc2) {
                                !assoc_has(out_accounts@, a)
                            } else {
                                assoc_get(out_accounts@, a) matches Some(acs2)
                                    && account_cols_match(loader, acc2, acs2)
                            },
                            None => !assoc_has(out_accounts@, a),
                        } by {
                        if a == addr {
                            assert(assoc_get(orig.take(k + 1), a) == Some(acc));
                            assert(assoc_get(orig.take(k), a) is None);
                            if assoc_has(out_accounts@, a) {
                                assert(false);
                            }
                        } else {
                            assert(assoc_get(orig.take(k + 1), a) == assoc_get(orig.take(k), a));
                        }
                    }
                }
            }
            proof {
                k = k + 1;
            }
        }
        proof {
            assert(orig.take(orig.len() as int) =~= orig);
        }
        let change_set = ChangeSet { accounts: out_accounts };
        let mut events: Vec<Event> = Vec::new();
        let ghost je: int = 0;
        while ev.len() > 0
            invariant
                self0.wf(),
                loader == self0.loader,
                0 <= je <= ev_orig.len(),
                ev@ == ev_orig.subrange(je, ev_orig.len() as int),
                events@.len() == je,
                forall|i: int|
                    0 <= i < je ==> (#[trigger] events@[i]).0@ == ev_orig[i].0@ && events@[i].1
                        == ev_orig[i].1 && loader.spec_tag(ev_orig[i].2) == Some(events@[i].2)
                        && encoding_of(ev_orig[i].4) == Some(events@[i].3@),
            decreases ev@.len(),
        {
            let (guid, seq_num, ty, _layout, val) = ev.remove(0);
            proof {
                assert(ev@ =~= ev_orig.subrange(je + 1, ev_orig.len() as int));
                assert((guid, seq_num, ty, _layout, val) == ev_orig[je]);
            }
            let tag = match loader.type_to_type_tag(&ty) {
                Ok(t) => t,
                Err(e) => {
                    proof {
                        assert(self0.loader.spec_tag(ev_orig[je].2) is Some);
                        assert(false);
                    }
                    return Err(e);
                },
            };
            let blob = match serialize_value(&val) {
                Some(b) => b,
                None => {
                    proof {
                        assert(encoding_of(ev_orig[je].4) is None);
                    }
                    return Err(StatusCode::InternalTypeError);
                },
            };
            events.push((guid, seq_num, tag, blob));
            proof {
                je = je + 1;
            }
        }
        Ok((change_set, events))
    }
}

/// Ascending order on struct tags.
fn tag_less(a: &StructTag, b: &StructTag) -> (r: bool)
    ensures
        r == tag_lt(*a, *b),
{
    if a.address.0 != b.address.0 {
        a.address.0 < b.address.0
    } else if a.module.0 != b.module.0 {
        a.module.0 < b.module.0
    } else {
        a.name.0 < b.name.0
    }
}

/// Inserts a fresh name key at the position that keeps ascending order.
fn insert_sorted_name(
    entries: &mut Vec<(Identifier, Op<Vec<u8>>)>,
    name: Identifier,
    op: Op<Vec<u8>>,
)
    requires
        name_sorted(old(entries)@),
        unique_keys(old(entries)@),
        !assoc_has(old(entries)@, name),
    ensures
        name_sorted(final(entries)@),
        unique_keys(final(entries)@),
        final(entries)@.len() == old(entries)@.len() + 1,
        assoc_get(final(entries)@, name) == Some(op),
        forall|n2: Identifier|
            n2 != name ==> assoc_get(final(entries)@, n2) == assoc_get(old(entries)@, n2),
        exists|p: int|
            0 <= p <= old(entries)@.len() && final(entries)@ == old(entries)@.insert(
                p,
                (name, op),
            ),
{
    let ghost pre = entries@;
    let mut i: usize = 0;
    while i < entries.len() && entries[i].0.0 < name.0
        invariant
            pre == entries@,
            i <= entries@.len(),
            forall|j: int| 0 <= j < i ==> entries@[j].0.0 < name.0,
        decreases entries@.len() - i,
    {
        i += 1;
    }
    proof {
        assert(forall|j: int| 0 <= j < pre.len() ==> pre[j].0 != name);
        assert forall|j: int| i <= j < pre.len() implies name.0 < pre[j].0.0 by {
            assert(pre[i as int].0.0 >= name.0);
            assert(pre[i as int].0 != name);
            if j > i {
                assert(pre[i as int].0.0 < pre[j].0.0);
            }
        }
        lemma_assoc_insert(pre, i as int, name, op);
    }
    entries.insert(i, (name, op));
    proof {
        assert(name_sorted(entries@)) by {
            assert forall|a: int, b: int|
                0 <= a < b < entries@.len() implies entries@[a].0.0 < entries@[b].0.0 by {
                assert(forall|m: int| 0 <= m < i ==> entries@[m] == pre[m]);
                assert(entries@[i as int] == (name, op));
                assert(forall|m: int| i < m < entries@.len() ==> entries@[m] == pre[m - 1]);
            }
        }
    }
}

/// Inserts a fresh tag key at the position that keeps ascending order.
fn insert_sorted_tag(entries: &mut Vec<(StructTag, Op<Data>)>, tag: StructTag, op: Op<Data>)
    requires
        tag_sorted(old(entries)@),
        unique_keys(old(entries)@),
        !assoc_has(old(entries)@, tag),
    ensures
        tag_sorted(final(entries)@),
        unique_keys(final(entries)@),
        final(entries)@.len() == old(entries)@.len() + 1,
        assoc_get(final(entries)@, tag) == Some(op),
        forall|t2: StructTag|
            t2 != tag ==> assoc_get(final(entries)@, t2) == assoc_get(old(entries)@, t2),
{
    let ghost pre = entries@;
    let mut i: usize = 0;
    while i < entries.len() && tag_less(&entries[i].0, &tag)
        invariant
            pre == entries@,
            i <= entries@.len(),
            forall|j: int| 0 <= j < i ==> tag_lt(entries@[j].0, tag),
        decreases entries@.len() - i,
    {
        i += 1;
    }
    proof {
        assert(forall|j: int| 0 <= j < pre.len() ==> pre[j].0 != tag);
        assert forall|j: int| i <= j < pre.len() implies tag_lt(tag, pre[j].0) by {
            assert(!tag_lt(pre[i as int].0, tag));
            assert(pre[i as int].0 != tag);
            assert(tag_lt(tag, pre[i as int].0));
            if j > i {
                assert(tag_lt(pre[i as int].0, pre[j].0));
            }
        }
        lemma_assoc_insert(pre, i as int, tag, op);
    }
    entries.insert(i, (tag, op));
    proof {
        assert(tag_sorted(entries@)) by {
            assert forall|a: int, b: int|
                0 <= a < b < entries@.len() implies tag_lt(entries@[a].0, entries@[b].0) by {
                assert(forall|m: int| 0 <= m < i ==> entries@[m] == pre[m]);
                assert(entries@[i as int] == (tag, op));
                assert(forall|m: int| i < m < entries@.len() ==> entries@[m] == pre[m - 1]);
            }
        }
    }
}

/// Inserts a fresh address key at the position that keeps ascending order.
fn insert_sorted_addr(
    entries: &mut Vec<(AccountAddress, AccountChangeSet)>,
    addr: AccountAddress,
    acs: AccountChangeSet,
)
    requires
        addr_sorted(old(entries)@),
        unique_keys(old(entries)@),
        !assoc_has(old(entries)@, addr),
    ensures
        addr_sorted(final(entries)@),
        unique_keys(final(entries)@),
        final(entries)@.len() == old(entries)@.len() + 1,
        assoc_get(final(entries)@, addr) == Some(acs),
        forall|a2: AccountAddress|
            a2 != addr ==> assoc_get(final(entries)@, a2) == assoc_get(old(entries)@, a2),
        exists|p: int|
            0 <= p <= old(entries)@.len() && final(entries)@ == old(entries)@.insert(
                p,
                (addr, acs),
            ),
{
    let ghost pre = entries@;
    let mut i: usize = 0;
    while i < entries.len() && entries[i].0.0 < addr.0
        invariant
            pre == entries@,
            i <= entries@.len(),
            forall|j: int| 0 <= j < i ==> entries@[j].0.0 < addr.0,
        decreases entries@.len() - i,
    {
        i += 1;
    }
    proof {
        assert(forall|j: int| 0 <= j < pre.len() ==> pre[j].0 != addr);
        assert forall|j: int| i <= j < pre.len() implies addr.0 < pre[j].0.0 by {
            assert(pre[i as int].0.0 >= addr.0);
            assert(pre[i as int].0 != addr);
            if j > i {
                assert(pre[i as int].0.0 < pre[j].0.0);
            }
        }
        lemma_assoc_insert(pre, i as int, addr, acs);
    }
    entries.insert(i, (addr, acs));
    proof {
        assert(addr_sorted(entries@)) by {
            assert forall|a: int, b: int|
                0 <= a < b < entries@.len() implies entries@[a].0.0 < entries@[b].0.0 by {
                assert(forall|m: int| 0 <= m < i ==> entries@[m] == pre[m]);
                assert(entries@[i as int] == (addr, acs));
                assert(forall|m: int| i < m < entries@.len() ==> entries@[m] == pre[m - 1]);
            }
        }
    }
}

/// A slot whose diff contributes an operation but whose type does not
/// resolve to a struct tag refutes `tags_ok`.
proof fn lemma_bad_tag_witness(
    loader: Loader,
    s: Seq<(AccountAddress, AccountDataCache)>,
    k: int,
    jd: int,
)
    requires
        0 <= k < s.len(),
        0 <= jd < s[k].1.data_map@.len(),
        spec_into_effect(s[k].1.data_map@[jd].1.1) is Some,
        !(loader.spec_tag(s[k].1.data_map@[jd].0) matches Some(TypeTag::Struct(_))),
    ensures
        !resource_tags_ok(loader, s[k].1.data_map@),
        !tags_ok(loader, s),
{
    let dm = s[k].1.data_map@;
    if resource_tags_ok(loader, dm) {
        assert(spec_into_effect(dm[jd].1.1) is Some ==> (loader.spec_tag(dm[jd].0) matches Some(
            TypeTag::Struct(_),
        )));
        assert(false);
    }
    if tags_ok(loader, s) {
        assert(resource_tags_ok(loader, (s[k].1).data_map@));
        assert(false);
    }
}

/// Whether any slot of the account was mutated this transaction.
fn account_any_mutated(acc: &AccountDataCache) -> (r: bool)
    ensures
        r == any_mutated(*acc),
{
    let mut j: usize = 0;
    while j < acc.data_map.len()
        invariant
            j <= acc.data_map@.len(),
            forall|m: int| 0 <= m < j ==> !spec_is_mutated(acc.data_map@[m].1.1),
        decreases acc.data_map@.len() - j,
    {
        if acc.data_map[j].1.1.is_mutated() {
            return true;
        }
        j += 1;
    }
    false
}

} // verus!
