//! The type-system collaborator, seen as data: a table that resolves each
//! runtime type to its canonical tag and its serialization layout. Within
//! one transaction the table is fixed, so resolution is deterministic, which
//! the commit path relies on.

use vstd::prelude::*;

use crate::errors::StatusCode;
use crate::ids::{Type, TypeTag};
use crate::values::clone_layout;
use move_core_types::value::MoveTypeLayout;

verus! {

/// What the loader knows of one runtime type.
pub struct TypeInfo {
    pub tag: TypeTag,
    pub layout: MoveTypeLayout,
}

/// Resolves runtime types to tags and layouts. A runtime type is an index
/// into this table; an index past the end is a type the loader cannot
/// resolve.
pub struct Loader {
    pub types: Vec<TypeInfo>,
}

impl Loader {
    /// The tag of `ty`, when the loader knows `ty`.
    pub open spec fn spec_tag(self, ty: Type) -> Option<TypeTag> {
        if ty.0 < self.types@.len() {
            Some(self.types@[ty.0 as int].tag)
        } else {
            None
        }
    }

    /// The layout of `ty`, when the loader knows `ty`.
    pub open spec fn spec_layout(self, ty: Type) -> Option<MoveTypeLayout> {
        if ty.0 < self.types@.len() {
            Some(self.types@[ty.0 as int].layout)
        } else {
            None
        }
    }

    pub fn new(types: Vec<TypeInfo>) -> (r: Self)
        ensures
            r == (Loader { types }),
    {
        Loader { types }
    }

    /// The canonical tag of `ty`; fails exactly when the loader does not
    /// know `ty`.
    pub fn type_to_type_tag(&self, ty: &Type) -> (r: Result<TypeTag, StatusCode>)
        ensures
            r == match self.spec_tag(*ty) {
                Some(t) => Ok::<TypeTag, StatusCode>(t),
                None => Err::<TypeTag, StatusCode>(StatusCode::TypeResolutionFailure),
            },
    {
        if ty.0 < self.types.len() as u64 {
            Ok(self.types[ty.0 as usize].tag)
        } else {
            Err(StatusCode::TypeResolutionFailure)
        }
    }

    /// The serialization layout of `ty`; fails exactly when the loader does
    /// not know `ty`.
    pub fn type_to_type_layout(&self, ty: &Type) -> (r: Result<MoveTypeLayout, StatusCode>)
        ensures
            self.spec_layout(*ty) matches Some(l) ==> r matches Ok(rl) && rl == l,
            self.spec_layout(*ty) is None ==> r == Err::<MoveTypeLayout, StatusCode>(
                StatusCode::TypeResolutionFailure,
            ),
    {
        if ty.0 < self.types.len() as u64 {
            Ok(clone_layout(&self.types[ty.0 as usize].layout))
        } else {
            Err(StatusCode::TypeResolutionFailure)
        }
    }
}

} // verus!
