//! The output data model of one transaction: per-key operations, per-account
//! diffs, and the whole-transaction change set, plus the bytes-only forms
//! that downstream storage consumes.

use vstd::prelude::*;

use crate::assoc::{assoc_get, assoc_has, assoc_idx, lemma_assoc_at, unique_keys};
use crate::errors::StatusCode;
use crate::ids::{AccountAddress, Identifier, ModuleId, StructTag};
use crate::values::{encoding_of, serialize_value};
use move_core_types::value::MoveTypeLayout;
use move_core_types::value::MoveValue;

verus! {

/// One resolved operation on a key of durable state: exactly one of create,
/// modify or delete. A key whose state did not change carries no operation.
#[derive(Debug)]
pub enum Op<T> {
    New(T),
    Modify(T),
    Delete,
}

/// Failure of a change-set builder: the key already carries an operation.
/// This detects a programming error; correct use never produces collisions.
#[derive(Clone, Copy, Debug, PartialEq, Eq, Structural)]
pub enum ChangeSetError {
    ModuleAlreadyExists,
    ResourceAlreadyExists,
    AccountAlreadyExists,
}

/// A resource payload, either as raw serialized bytes or as a shared,
/// already-deserialized value plus its layout. The two forms are convertible
/// to bytes on demand; the cached form spares consumers a redundant decode.
#[derive(Debug)]
pub enum Data {
    /// The payload as its serialized bytes.
    Serialized(Vec<u8>),
    /// The payload as a value that has not been serialized yet.
    Cached(MoveValue, MoveTypeLayout),
}

impl Data {
    pub fn from_bytes(blob: Vec<u8>) -> (r: Data)
        ensures
            r == Data::Serialized(blob),
    {
        Data::Serialized(blob)
    }

    pub fn from_value(value: MoveValue, layout: MoveTypeLayout) -> (r: Data)
        ensures
            r == Data::Cached(value, layout),
    {
        Data::Cached(value, layout)
    }

    /// The payload as bytes: the stored bytes as they are, or the cached
    /// value encoded on demand (`None` when it cannot be encoded under any
    /// layout).
    pub fn simple_serialize(&self) -> (r: Option<Vec<u8>>)
        ensures
            match *self {
                Data::Serialized(blob) => r matches Some(b) && b@ == blob@,
                Data::Cached(v, _) => match r {
                    Some(b) => encoding_of(v) == Some(b@),
                    None => encoding_of(v) is None,
                },
            },
    {
        match self {
            Data::Serialized(blob) => Some(clone_bytes(blob)),
            Data::Cached(value, _layout) => serialize_value(value),
        }
    }
}

/// Copies a byte vector (used to hand out the serialized form of a payload
/// without giving up the shared original).
pub(crate) fn clone_bytes(v: &Vec<u8>) -> (r: Vec<u8>)
    ensures
        r@ == v@,
{
    let r = v.clone();
    proof {
        assert(r@ =~= v@);
    }
    r
}

/// The diff of one account: at most one operation per module name and per
/// resource type tag.
#[derive(Debug)]
pub struct AccountChangeSet {
    pub modules: Vec<(Identifier, Op<Vec<u8>>)>,
    pub resources: Vec<(StructTag, Op<Data>)>,
}

impl AccountChangeSet {
    /// Both key columns are pairwise distinct.
    pub open spec fn wf(self) -> bool {
        unique_keys(self.modules@) && unique_keys(self.resources@)
    }

    pub fn from_modules_resources(
        modules: Vec<(Identifier, Op<Vec<u8>>)>,
        resources: Vec<(StructTag, Op<Data>)>,
    ) -> (r: Self)
        ensures
            r == (AccountChangeSet { modules, resources }),
    {
        Self { modules, resources }
    }

    pub fn new() -> (r: Self)
        ensures
            r.modules@ == Seq::<(Identifier, Op<Vec<u8>>)>::empty(),
            r.resources@ == Seq::<(StructTag, Op<Data>)>::empty(),
    {
        Self { modules: Vec::new(), resources: Vec::new() }
    }

    /// Registers the operation for a module name; fails, changing nothing,
    /// when the name already carries one.
    pub fn add_module_op(&mut self, name: Identifier, op: Op<Vec<u8>>) -> (r: Result<
        (),
        ChangeSetError,
    >)
        ensures
            assoc_has(old(self).modules@, name) ==> r == Err::<(), ChangeSetError>(
                ChangeSetError::ModuleAlreadyExists,
            ) && *final(self) == *old(self),
            !assoc_has(old(self).modules@, name) ==> r is Ok && final(self).modules@ == old(self).modules@.push((name, op)) && final(self).resources == old(self).resources,
    {
        match find_module(&self.modules, name) {
            Some(_) => Err(ChangeSetError::ModuleAlreadyExists),
            None => {
                self.modules.push((name, op));
                Ok(())
            },
        }
    }

    /// Registers the operation for a resource tag; fails, changing nothing,
    /// when the tag already carries one.
    pub fn add_resource_op(&mut self, struct_tag: StructTag, op: Op<Data>) -> (r: Result<
        (),
        ChangeSetError,
    >)
        ensures
            assoc_has(old(self).resources@, struct_tag) ==> r == Err::<(), ChangeSetError>(
                ChangeSetError::ResourceAlreadyExists,
            ) && *final(self) == *old(self),
            !assoc_has(old(self).resources@, struct_tag) ==> r is Ok && final(self).resources@
                == old(self).resources@.push((struct_tag, op)) && final(self).modules == old(self).modules,
    {
        match find_resource(&self.resources, struct_tag) {
            Some(_) => Err(ChangeSetError::ResourceAlreadyExists),
            None => {
                self.resources.push((struct_tag, op));
                Ok(())
            },
        }
    }

    pub fn into_inner(self) -> (r: (Vec<(Identifier, Op<Vec<u8>>)>, Vec<(StructTag, Op<Data>)>))
        ensures
            r.0 == self.modules,
            r.1 == self.resources,
    {
        (self.modules, self.resources)
    }

    pub fn into_modules(self) -> (r: Vec<(Identifier, Op<Vec<u8>>)>)
        ensures
            r == self.modules,
    {
        self.modules
    }

    pub fn into_resources(self) -> (r: Vec<(StructTag, Op<Data>)>)
        ensures
            r == self.resources,
    {
        self.resources
    }

    pub fn modules(&self) -> (r: &Vec<(Identifier, Op<Vec<u8>>)>)
        ensures
            r == self.modules,
    {
        &self.modules
    }

    pub fn resources(&self) -> (r: &Vec<(StructTag, Op<Data>)>)
        ensures
            r == self.resources,
    {
        &self.resources
    }

    pub fn is_empty(&self) -> (r: bool)
        ensures
            r == (self.modules@.len() == 0 && self.resources@.len() == 0),
    {
        self.modules.is_empty() && self.resources.is_empty()
    }
}

/// Position of `name` among the module entries, if present.
pub(crate) fn find_module<V>(entries: &Vec<(Identifier, V)>, name: Identifier) -> (r: Option<usize>)
    ensures
        match r {
            Some(i) => i < entries@.len() && entries@[i as int].0 == name,
            None => !assoc_has(entries@, name),
        },
{
    let mut i: usize = 0;
    while i < entries.len()
        invariant
            i <= entries@.len(),
            forall|j: int| 0 <= j < i ==> entries@[j].0 != name,
        decreases entries@.len() - i,
    {
        if entries[i].0 == name {
            return Some(i);
        }
        i += 1;
    }
    None
}

/// Position of `tag` among the resource entries, if present.
pub(crate) fn find_resource<V>(entries: &Vec<(StructTag, V)>, tag: StructTag) -> (r: Option<usize>)
    ensures
        match r {
            Some(i) => i < entries@.len() && entries@[i as int].0 == tag,
            None => !assoc_has(entries@, tag),
        },
{
    let mut i: usize = 0;
    while i < entries.len()
        invariant
            i <= entries@.len(),
            forall|j: int| 0 <= j < i ==> entries@[j].0 != tag,
        decreases entries@.len() - i,
    {
        if entries[i].0 == tag {
            return Some(i);
        }
        i += 1;
    }
    None
}

/// The diff of one whole transaction: at most one account diff per address.
#[derive(Debug)]
pub struct ChangeSet {
    pub accounts: Vec<(AccountAddress, AccountChangeSet)>,
}

impl ChangeSet {
    /// Address keys are pairwise distinct, and each account diff is itself
    /// well formed.
    pub open spec fn wf(self) -> bool {
        &&& unique_keys(self.accounts@)
        &&& forall|i: int| 0 <= i < self.accounts@.len() ==> (#[trigger] self.accounts@[i].1).wf()
    }

    pub fn new() -> (r: Self)
        ensures
            r.accounts@ == Seq::<(AccountAddress, AccountChangeSet)>::empty(),
    {
        Self { accounts: Vec::new() }
    }

    /// Registers a whole account diff; fails, changing nothing, when the
    /// address already carries one.
    pub fn add_account_changeset(&mut self, addr: AccountAddress, account_changeset: AccountChangeSet)
        -> (r: Result<(), ChangeSetError>)
        ensures
            assoc_has(old(self).accounts@, addr) ==> r == Err::<(), ChangeSetError>(
                ChangeSetError::AccountAlreadyExists,
            ) && *final(self) == *old(self),
            !assoc_has(old(self).accounts@, addr) ==> r is Ok && final(self).accounts@ == old(self).accounts@.push((addr, account_changeset)),
    {
        match find_account(&self.accounts, addr) {
            Some(_) => Err(ChangeSetError::AccountAlreadyExists),
            None => {
                self.accounts.push((addr, account_changeset));
                Ok(())
            },
        }
    }

    pub fn accounts(&self) -> (r: &Vec<(AccountAddress, AccountChangeSet)>)
        ensures
            r == self.accounts,
    {
        &self.accounts
    }

    pub fn into_inner(self) -> (r: Vec<(AccountAddress, AccountChangeSet)>)
        ensures
            r == self.accounts,
    {
        self.accounts
    }

    /// Registers one module operation under the module's address, creating
    /// the account diff on first touch.
    pub fn add_module_op(&mut self, module_id: ModuleId, op: Op<Vec<u8>>) -> (r: Result<
        (),
        ChangeSetError,
    >)
        requires
            old(self).wf(),
        ensures
            final(self).wf(),
            match assoc_get(old(self).accounts@, module_id.address) {
                Some(acs) => {
                    if assoc_has(acs.modules@, module_id.name) {
                        r == Err::<(), ChangeSetError>(ChangeSetError::ModuleAlreadyExists)
                            && final(self).accounts@ == old(self).accounts@
                    } else {
                        r is Ok && entry_updated(
                            old(self).accounts@,
                            final(self).accounts@,
                            assoc_idx(old(self).accounts@, module_id.address),
                            module_id.address,
                            acs.modules@.push((module_id.name, op)),
                            acs.resources@,
                        )
                    }
                },
                None => r is Ok && entry_appended(
                    old(self).accounts@,
                    final(self).accounts@,
                    module_id.address,
                    seq![(module_id.name, op)],
                    Seq::empty(),
                ),
            },
    {
        let i = self.get_or_insert_account_changeset(module_id.address);
        let entry = &mut self.accounts[i];
        let res = entry.1.add_module_op(module_id.name, op);
        proof {
            if assoc_has(old(self).accounts@, module_id.address) {
                lemma_assoc_at(old(self).accounts@, i as int);
                if !(res is Ok) {
                    assert(self.accounts@ =~= old(self).accounts@);
                }
            } else {
                assert(res is Ok);
            }
        }
        res
    }

    /// Registers one resource operation under `addr`, creating the account
    /// diff on first touch.
    pub fn add_resource_op(&mut self, addr: AccountAddress, struct_tag: StructTag, op: Op<Data>)
        -> (r: Result<(), ChangeSetError>)
        requires
            old(self).wf(),
        ensures
            final(self).wf(),
            match assoc_get(old(self).accounts@, addr) {
                Some(acs) => {
                    if assoc_has(acs.resources@, struct_tag) {
                        r == Err::<(), ChangeSetError>(ChangeSetError::ResourceAlreadyExists)
                            && final(self).accounts@ == old(self).accounts@
                    } else {
                        r is Ok && entry_updated(
                            old(self).accounts@,
                            final(self).accounts@,
                            assoc_idx(old(self).accounts@, addr),
                            addr,
                            acs.modules@,
                            acs.resources@.push((struct_tag, op)),
                        )
                    }
                },
                None => r is Ok && entry_appended(
                    old(self).accounts@,
                    final(self).accounts@,
                    addr,
                    Seq::empty(),
                    seq![(struct_tag, op)],
                ),
            },
    {
        let i = self.get_or_insert_account_changeset(addr);
        let entry = &mut self.accounts[i];
        let res = entry.1.add_resource_op(struct_tag, op);
        proof {
            if assoc_has(old(self).accounts@, addr) {
                lemma_assoc_at(old(self).accounts@, i as int);
                if !(res is Ok) {
                    assert(self.accounts@ =~= old(self).accounts@);
                }
            } else {
                assert(res is Ok);
            }
        }
        res
    }

    /// Index of the account diff for `addr`, creating an empty one when the
    /// address has none yet.
    fn get_or_insert_account_changeset(&mut self, addr: AccountAddress) -> (i: usize)
        requires
            old(self).wf(),
        ensures
            final(self).wf(),
            i < final(self).accounts@.len(),
            final(self).accounts@[i as int].0 == addr,
            match assoc_get(old(self).accounts@, addr) {
                Some(_) => *final(self) == *old(self) && assoc_idx(old(self).accounts@, addr)
                    == i as int,
                None => entry_appended(
                    old(self).accounts@,
                    final(self).accounts@,
                    addr,
                    Seq::empty(),
                    Seq::empty(),
                ) && i as int == old(self).accounts@.len(),
            },
    {
        match find_account(&self.accounts, addr) {
            Some(i) => {
                proof {
                    lemma_assoc_at(self.accounts@, i as int);
                }
                i
            },
            None => {
                self.accounts.push((addr, AccountChangeSet::new()));
                self.accounts.len() - 1
            },
        }
    }
}

/// `post` equals `pre` but at `i`, whose entry carries `addr` and the given
/// module and resource columns.
pub open spec fn entry_updated(
    pre: Seq<(AccountAddress, AccountChangeSet)>,
    post: Seq<(AccountAddress, AccountChangeSet)>,
    i: int,
    addr: AccountAddress,
    mods: Seq<(Identifier, Op<Vec<u8>>)>,
    rsrcs: Seq<(StructTag, Op<Data>)>,
) -> bool {
    &&& post.len() == pre.len()
    &&& 0 <= i < post.len()
    &&& (forall|j: int| 0 <= j < post.len() && j != i ==> post[j] == pre[j])
    &&& post[i].0 == addr
    &&& post[i].1.modules@ == mods
    &&& post[i].1.resources@ == rsrcs
}

/// `post` is `pre` with one more entry at the end, carrying `addr` and the
/// given module and resource columns.
pub open spec fn entry_appended(
    pre: Seq<(AccountAddress, AccountChangeSet)>,
    post: Seq<(AccountAddress, AccountChangeSet)>,
    addr: AccountAddress,
    mods: Seq<(Identifier, Op<Vec<u8>>)>,
    rsrcs: Seq<(StructTag, Op<Data>)>,
) -> bool {
    &&& post.len() == pre.len() + 1
    &&& (forall|j: int| 0 <= j < pre.len() ==> post[j] == pre[j])
    &&& post[pre.len() as int].0 == addr
    &&& post[pre.len() as int].1.modules@ == mods
    &&& post[pre.len() as int].1.resources@ == rsrcs
}

/// How a data operation relates to its bytes-only form: the same kind of
/// operation, with a stored payload's bytes kept exactly.
pub open spec fn blob_op_matches(a: Op<Data>, b: Op<Vec<u8>>) -> bool {
    match a {
        Op::Delete => b is Delete,
        Op::New(d) => b matches Op::New(bl) && data_blob_matches(d, bl),
        Op::Modify(d) => b matches Op::Modify(bl) && data_blob_matches(d, bl),
    }
}

/// Bytes standing for a payload: a serialized payload's bytes are kept as
/// they are; a cached payload's bytes are its value's canonical encoding.
pub open spec fn data_blob_matches(d: Data, bl: Vec<u8>) -> bool {
    match d {
        Data::Serialized(b) => bl@ == b@,
        Data::Cached(v, _) => encoding_of(v) == Some(bl@),
    }
}

/// Whether the payload has bytes to give: a serialized payload always does;
/// a cached one exactly when the codec defines its value's encoding.
pub open spec fn data_encodes(d: Data) -> bool {
    match d {
        Data::Serialized(_) => true,
        Data::Cached(v, _) => encoding_of(v) is Some,
    }
}

/// Whether the operation's payload, if any, has bytes to give.
pub open spec fn op_encodes(a: Op<Data>) -> bool {
    match a {
        Op::New(d) => data_encodes(d),
        Op::Modify(d) => data_encodes(d),
        Op::Delete => true,
    }
}

/// The diff of one account in bytes-only form, as durable storage consumes
/// it.
#[derive(Debug)]
pub struct BlobAccountChangeSet {
    pub modules: Vec<(Identifier, Op<Vec<u8>>)>,
    pub resources: Vec<(StructTag, Op<Vec<u8>>)>,
}

/// Whether `b` is the bytes-only form of `a`: same module column, and each
/// resource operation encoded in place.
pub open spec fn blob_acs_matches(a: AccountChangeSet, b: BlobAccountChangeSet) -> bool {
    &&& b.modules == a.modules
    &&& b.resources@.len() == a.resources@.len()
    &&& forall|i: int|
        0 <= i < a.resources@.len() ==> (#[trigger] b.resources@[i]).0 == a.resources@[i].0
            && blob_op_matches(a.resources@[i].1, b.resources@[i].1)
}

/// Whether every resource operation of the account diff has bytes to give.
pub open spec fn acs_encodes(a: AccountChangeSet) -> bool {
    forall|i: int| 0 <= i < a.resources@.len() ==> op_encodes((#[trigger] a.resources@[i]).1)
}

impl BlobAccountChangeSet {
    /// Encodes every resource payload, yielding the bytes-only diff. Fails
    /// exactly when some payload has no encoding, which for well-typed
    /// values indicates a bug, not user input.
    #[verifier::loop_isolation(false)]
    pub fn try_from(acs: AccountChangeSet) -> (r: Result<BlobAccountChangeSet, StatusCode>)
        ensures
            r matches Ok(b) ==> blob_acs_matches(acs, b),
            r is Err ==> r == Err::<BlobAccountChangeSet, StatusCode>(StatusCode::InternalTypeError)
                && !acs_encodes(acs),
            acs_encodes(acs) ==> r is Ok,
    {
        let ghost acs0 = acs;
        let (modules, mut rsrc) = acs.into_inner();
        let ghost rs_orig = acs0.resources@;
        let mut resources: Vec<(StructTag, Op<Vec<u8>>)> = Vec::new();
        let ghost j: int = 0;
        while rsrc.len() > 0
            invariant
                0 <= j <= rs_orig.len(),
                rsrc@ == rs_orig.subrange(j, rs_orig.len() as int),
                resources@.len() == j,
                forall|m: int|
                    0 <= m < j ==> (#[trigger] resources@[m]).0 == rs_orig[m].0 && blob_op_matches(
                        rs_orig[m].1,
                        resources@[m].1,
                    ),
            decreases rsrc@.len(),
        {
            let (tag, op) = rsrc.remove(0);
            proof {
                assert(rsrc@ =~= rs_orig.subrange(j + 1, rs_orig.len() as int));
                assert((tag, op) == rs_orig[j]);
            }
            let new_op = match op {
                Op::Delete => Op::Delete,
                Op::New(d) => match d.simple_serialize() {
                    Some(bl) => Op::New(bl),
                    None => {
                        return Err(StatusCode::InternalTypeError);
                    },
                },
                Op::Modify(d) => match d.simple_serialize() {
                    Some(bl) => Op::Modify(bl),
                    None => {
                        return Err(StatusCode::InternalTypeError);
                    },
                },
            };
            resources.push((tag, new_op));
            proof {
                j = j + 1;
            }
        }
        Ok(BlobAccountChangeSet { modules, resources })
    }
}

/// The diff of one whole transaction in bytes-only form.
#[derive(Debug)]
pub struct BlobChangeSet {
    pub accounts: Vec<(AccountAddress, BlobAccountChangeSet)>,
}

/// Whether every resource payload of the change set has bytes to give.
pub open spec fn cs_encodes(cs: ChangeSet) -> bool {
    forall|i: int| 0 <= i < cs.accounts@.len() ==> acs_encodes((#[trigger] cs.accounts@[i]).1)
}

impl BlobChangeSet {
    /// Encodes a whole change set account by account, in order; fails
    /// exactly when some resource payload has no encoding.
    #[verifier::loop_isolation(false)]
    pub fn try_from(cs: ChangeSet) -> (r: Result<BlobChangeSet, StatusCode>)
        ensures
            r matches Ok(b) ==> {
                &&& b.accounts@.len() == cs.accounts@.len()
                &&& forall|i: int|
                    0 <= i < cs.accounts@.len() ==> (#[trigger] b.accounts@[i]).0
                        == cs.accounts@[i].0 && blob_acs_matches(cs.accounts@[i].1, b.accounts@[i].1)
            },
            r is Err ==> r == Err::<BlobChangeSet, StatusCode>(StatusCode::InternalTypeError)
                && !cs_encodes(cs),
            cs_encodes(cs) ==> r is Ok,
    {
        let ghost cs0 = cs;
        let mut accounts = cs.into_inner();
        let ghost as_orig = cs0.accounts@;
        let mut out: Vec<(AccountAddress, BlobAccountChangeSet)> = Vec::new();
        let ghost j: int = 0;
        while accounts.len() > 0
            invariant
                0 <= j <= as_orig.len(),
                accounts@ == as_orig.subrange(j, as_orig.len() as int),
                out@.len() == j,
                forall|m: int|
                    0 <= m < j ==> (#[trigger] out@[m]).0 == as_orig[m].0 && blob_acs_matches(
                        as_orig[m].1,
                        out@[m].1,
                    ),
            decreases accounts@.len(),
        {
            let (addr, acs) = accounts.remove(0);
            proof {
                assert(accounts@ =~= as_orig.subrange(j + 1, as_orig.len() as int));
                assert((addr, acs) == as_orig[j]);
            }
            match BlobAccountChangeSet::try_from(acs) {
                Ok(b) => {
                    out.push((addr, b));
                },
                Err(e) => {
                    return Err(e);
                },
            }
            proof {
                j = j + 1;
            }
        }
        Ok(BlobChangeSet { accounts: out })
    }
}

/// Position of `addr` among the account entries, if present.
pub(crate) fn find_account<V>(entries: &Vec<(AccountAddress, V)>, addr: AccountAddress) -> (r: Option<usize>)
    ensures
        match r {
            Some(i) => i < entries@.len() && entries@[i as int].0 == addr,
            None => !assoc_has(entries@, addr),
        },
{
    let mut i: usize = 0;
    while i < entries.len()
        invariant
            i <= entries@.len(),
            forall|j: int| 0 <= j < i ==> entries@[j].0 != addr,
        decreases entries@.len() - i,
    {
        if entries[i].0 == addr {
            return Some(i);
        }
        i += 1;
    }
    None
}

} // verus!
