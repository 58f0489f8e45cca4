//! The typed value representation and its codec are collaborators from
//! `move_core_types`: the cache carries values and layouts through without
//! looking inside them, decodes a resource's bytes once on first load, and
//! encodes values only when the final diff and event list are produced.
//!
//! This module also holds the global value slot: the mutation-tracking holder
//! for one resource's current value, a tagged-variant state machine whose
//! three-way diff the commit path consumes.

use vstd::prelude::*;

use crate::effects::Op;
use crate::errors::StatusCode;
use move_core_types::value::MoveTypeLayout;
use move_core_types::value::MoveValue;

verus! {

#[verifier::external_type_specification]
#[verifier::external_body]
pub struct ExMoveTypeLayout(MoveTypeLayout);

#[verifier::external_type_specification]
#[verifier::external_body]
pub struct ExMoveValue(MoveValue);

/// The canonical encoding of a value, when the codec defines one: exactly
/// what `simple_serialize` returns. The encoding depends on the value alone.
pub uninterp spec fn encoding_of(value: MoveValue) -> Option<Seq<u8>>;

/// The value a byte string decodes to under a layout, when it decodes:
/// exactly what `simple_deserialize` returns. Decoding depends on the bytes
/// and the layout alone.
pub uninterp spec fn decoding_of(blob: Seq<u8>, layout: MoveTypeLayout) -> Option<MoveValue>;

/// Relies on the derived `Clone` of `move_core_types::value::MoveTypeLayout`:
/// the clone equals the original.
#[verifier::external_body]
pub(crate) fn clone_layout(layout: &MoveTypeLayout) -> (r: MoveTypeLayout)
    ensures
        r == *layout,
{
    layout.clone()
}

/// Relies on `move_core_types::value::MoveValue::simple_deserialize`: decodes
/// `blob` as a value of layout `layout`, `None` when the bytes do not match
/// the layout.
#[verifier::external_body]
pub(crate) fn deserialize_value(blob: &Vec<u8>, layout: &MoveTypeLayout) -> (r: Option<MoveValue>)
    ensures
        match r {
            Some(v) => decoding_of(blob@, *layout) == Some(v),
            None => decoding_of(blob@, *layout) is None,
        },
{
    MoveValue::simple_deserialize(blob, layout).ok()
}

/// Relies on the derived `Clone` of `move_core_types::value::MoveValue`:
/// the clone equals the original.
#[verifier::external_body]
pub(crate) fn clone_value(value: &MoveValue) -> (r: MoveValue)
    ensures
        r == *value,
{
    value.clone()
}

/// Relies on `move_core_types::value::MoveValue::simple_serialize`: the
/// canonical encoding of `value`, `None` when the value cannot be encoded.
#[verifier::external_body]
pub(crate) fn serialize_value(value: &MoveValue) -> (r: Option<Vec<u8>>)
    ensures
        match r {
            Some(bl) => encoding_of(*value) == Some(bl@),
            None => encoding_of(*value) is None,
        },
{
    value.simple_serialize()
}

/// Whether a value loaded from storage has been written to since.
#[derive(Clone, Copy, Debug, PartialEq, Eq, Structural)]
pub enum GlobalDataStatus {
    Clean,
    Dirty,
}

/// The mutation-tracking slot for one resource's current value. It records
/// the value's lineage across the transaction, and its three-way diff
/// (`into_effect`) is what the commit path condenses into the change set.
pub enum GlobalValue {
    /// Confirmed non-existent, and not present before this transaction.
    Absent,
    /// Existed in storage before this transaction, removed by it.
    Deleted,
    /// Created by this transaction; did not exist before.
    Fresh { value: MoveValue },
    /// Loaded from storage, with a record of whether it was written since.
    Cached { value: MoveValue, status: GlobalDataStatus },
}

/// The diff one slot contributes: nothing for a no-op, else exactly one
/// create, modify or delete.
pub open spec fn spec_into_effect(gv: GlobalValue) -> Option<Op<MoveValue>> {
    match gv {
        GlobalValue::Absent => None,
        GlobalValue::Deleted => Some(Op::Delete),
        GlobalValue::Fresh { value } => Some(Op::New(value)),
        GlobalValue::Cached { value, status } => match status {
            GlobalDataStatus::Clean => None,
            GlobalDataStatus::Dirty => Some(Op::Modify(value)),
        },
    }
}

/// Whether the slot's state differs from the pre-transaction view.
pub open spec fn spec_is_mutated(gv: GlobalValue) -> bool {
    !(spec_into_effect(gv) is None)
}

/// What publishing `value` into a slot does: an empty slot that never held a
/// stored value becomes fresh; one whose stored value was deleted earlier in
/// the transaction becomes dirty cached (the net effect is a modification);
/// an occupied slot refuses, unchanged.
pub open spec fn move_to_post(
    pre: GlobalValue,
    post: GlobalValue,
    value: MoveValue,
    r: Result<(), StatusCode>,
) -> bool {
    match pre {
        GlobalValue::Absent => r is Ok && post == (GlobalValue::Fresh { value }),
        GlobalValue::Deleted => r is Ok && post == (GlobalValue::Cached {
            value,
            status: GlobalDataStatus::Dirty,
        }),
        _ => r == Err::<(), StatusCode>(StatusCode::ResourceAlreadyExists) && post == pre,
    }
}

/// What taking the value out of a slot does: a stored value leaves a
/// deletion behind, a fresh one leaves nothing; an empty slot refuses,
/// unchanged.
pub open spec fn move_from_post(
    pre: GlobalValue,
    post: GlobalValue,
    r: Result<MoveValue, StatusCode>,
) -> bool {
    match pre {
        GlobalValue::Fresh { value } => r == Ok::<MoveValue, StatusCode>(value) && post
            == GlobalValue::Absent,
        GlobalValue::Cached { value, status } => r == Ok::<MoveValue, StatusCode>(value) && post
            == GlobalValue::Deleted,
        _ => r == Err::<MoveValue, StatusCode>(StatusCode::MissingData) && post == pre,
    }
}

/// What overwriting a slot's value does: a fresh value stays fresh, a cached
/// one becomes dirty; an empty slot refuses, unchanged.
pub open spec fn write_value_post(
    pre: GlobalValue,
    post: GlobalValue,
    value: MoveValue,
    r: Result<(), StatusCode>,
) -> bool {
    match pre {
        GlobalValue::Fresh { value: v0 } => r is Ok && post == (GlobalValue::Fresh { value }),
        GlobalValue::Cached { value: v0, status } => r is Ok && post == (GlobalValue::Cached {
            value,
            status: GlobalDataStatus::Dirty,
        }),
        _ => r == Err::<(), StatusCode>(StatusCode::MissingData) && post == pre,
    }
}

impl GlobalValue {
    /// A slot that is known to hold nothing, now and before the transaction.
    pub fn none() -> (r: Self)
        ensures
            r == GlobalValue::Absent,
    {
        GlobalValue::Absent
    }

    /// A slot holding a value loaded from storage, unmodified.
    pub fn cached(value: MoveValue) -> (r: Self)
        ensures
            r == (GlobalValue::Cached { value, status: GlobalDataStatus::Clean }),
    {
        GlobalValue::Cached { value, status: GlobalDataStatus::Clean }
    }

    /// Publishes `value` into an empty slot. Over a slot whose resource was
    /// deleted earlier in the transaction, the net effect is a modification
    /// of what storage holds, so the slot becomes a dirty cached one.
    pub fn move_to(&mut self, value: MoveValue) -> (r: Result<(), StatusCode>)
        ensures
            move_to_post(*old(self), *final(self), value, r),
    {
        match self {
            GlobalValue::Absent => {
                *self = GlobalValue::Fresh { value };
                Ok(())
            },
            GlobalValue::Deleted => {
                *self = GlobalValue::Cached { value, status: GlobalDataStatus::Dirty };
                Ok(())
            },
            _ => Err(StatusCode::ResourceAlreadyExists),
        }
    }

    /// Takes the value out of the slot. A value that storage holds leaves a
    /// deletion behind; a value created this transaction leaves nothing.
    pub fn move_from(&mut self) -> (r: Result<MoveValue, StatusCode>)
        ensures
            move_from_post(*old(self), *final(self), r),
    {
        let mut taken = GlobalValue::Absent;
        core::mem::swap(self, &mut taken);
        match taken {
            GlobalValue::Fresh { value } => Ok(value),
            GlobalValue::Cached { value, status: _ } => {
                *self = GlobalValue::Deleted;
                Ok(value)
            },
            other => {
                *self = other;
                Err(StatusCode::MissingData)
            },
        }
    }

    /// Overwrites the value the slot holds, marking a stored value as dirty.
    /// Models the interpreter writing through a mutable global borrow.
    pub fn write_value(&mut self, value: MoveValue) -> (r: Result<(), StatusCode>)
        ensures
            write_value_post(*old(self), *final(self), value, r),
    {
        match self {
            GlobalValue::Fresh { .. } => {
                *self = GlobalValue::Fresh { value };
                Ok(())
            },
            GlobalValue::Cached { .. } => {
                *self = GlobalValue::Cached { value, status: GlobalDataStatus::Dirty };
                Ok(())
            },
            _ => Err(StatusCode::MissingData),
        }
    }

    /// Whether the slot's state differs from the pre-transaction view: a
    /// deletion, a fresh value, or a stored value that was written to.
    pub fn is_mutated(&self) -> (r: bool)
        ensures
            r == spec_is_mutated(*self),
    {
        match self {
            GlobalValue::Absent => false,
            GlobalValue::Deleted => true,
            GlobalValue::Fresh { .. } => true,
            GlobalValue::Cached { status, .. } => match status {
                GlobalDataStatus::Clean => false,
                GlobalDataStatus::Dirty => true,
            },
        }
    }

    /// The three-way diff of the slot against the pre-transaction view:
    /// `None` when the state is unchanged (absent before and after, or loaded
    /// and never written), else exactly one create, modify or delete.
    pub fn into_effect(self) -> (r: Option<Op<MoveValue>>)
        ensures
            r == spec_into_effect(self),
    {
        match self {
            GlobalValue::Absent => None,
            GlobalValue::Deleted => Some(Op::Delete),
            GlobalValue::Fresh { value } => Some(Op::New(value)),
            GlobalValue::Cached { value, status } => match status {
                GlobalDataStatus::Clean => None,
                GlobalDataStatus::Dirty => Some(Op::Modify(value)),
            },
        }
    }
}

} // verus!
