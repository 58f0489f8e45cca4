//! The resolver interface this crate exposes: any persistent storage backend
//! or cache that can answer point reads of resources and modules at runtime.
//! Implementations must return `Ok(Some(..))` when the data exists,
//! `Ok(None)` when it does not, and reserve `Err` for storage-level failure.

use vstd::prelude::*;

use crate::effects::{clone_bytes, Data};
use crate::values::clone_value;
use crate::ids::{AccountAddress, ModuleId, StructTag};
use move_core_types::value::MoveValue;

verus! {

/// Any resource held by storage or a cache: as its serialized bytes, or as a
/// value that has not been serialized yet. The cached form carries the
/// output of an earlier session onward without a redundant decode.
#[derive(Debug)]
pub enum Resource {
    Serialized(Vec<u8>),
    Cached(MoveValue),
}

impl From<Vec<u8>> for Resource {
    fn from(blob: Vec<u8>) -> (r: Self) {
        Resource::Serialized(blob)
    }
}

impl vstd::std_specs::convert::FromSpecImpl<Vec<u8>> for Resource {
    open spec fn obeys_from_spec() -> bool {
        true
    }

    open spec fn from_spec(blob: Vec<u8>) -> Self {
        Resource::Serialized(blob)
    }
}

impl From<Data> for Resource {
    fn from(data: Data) -> (r: Self) {
        match data {
            Data::Serialized(blob) => Resource::Serialized(blob),
            Data::Cached(value, _) => Resource::Cached(value),
        }
    }
}

impl vstd::std_specs::convert::FromSpecImpl<Data> for Resource {
    open spec fn obeys_from_spec() -> bool {
        true
    }

    open spec fn from_spec(data: Data) -> Self {
        match data {
            Data::Serialized(blob) => Resource::Serialized(blob),
            Data::Cached(value, _) => Resource::Cached(value),
        }
    }
}

impl From<&Vec<u8>> for Resource {
    fn from(blob: &Vec<u8>) -> (r: Self)
        ensures
            r matches Resource::Serialized(b) && b@ == blob@,
    {
        Resource::Serialized(clone_bytes(blob))
    }
}

impl vstd::std_specs::convert::FromSpecImpl<&Vec<u8>> for Resource {
    open spec fn obeys_from_spec() -> bool {
        false
    }

    open spec fn from_spec(blob: &Vec<u8>) -> Self {
        Resource::Serialized(*blob)
    }
}

impl From<&Data> for Resource {
    fn from(data: &Data) -> (r: Self)
        ensures
            match *data {
                Data::Serialized(b) => r matches Resource::Serialized(b2) && b2@ == b@,
                Data::Cached(v, _) => r == Resource::Cached(v),
            },
    {
        match data {
            Data::Serialized(blob) => Resource::Serialized(clone_bytes(blob)),
            Data::Cached(value, _) => Resource::Cached(clone_value(value)),
        }
    }
}

impl vstd::std_specs::convert::FromSpecImpl<&Data> for Resource {
    open spec fn obeys_from_spec() -> bool {
        false
    }

    open spec fn from_spec(data: &Data) -> Self {
        match *data {
            Data::Serialized(blob) => Resource::Serialized(blob),
            Data::Cached(value, _) => Resource::Cached(value),
        }
    }
}

/// Answers point reads of resources from committed state.
pub trait ResourceResolver {
    type Error;

    fn get_resource(&self, address: &AccountAddress, typ: &StructTag) -> Result<
        Option<Resource>,
        Self::Error,
    >;
}

/// Answers point reads of published modules from committed state.
pub trait ModuleResolver {
    type Error;

    fn get_module(&self, id: &ModuleId) -> Result<Option<Vec<u8>>, Self::Error>;
}

impl<T: ResourceResolver + ?Sized> ResourceResolver for &T {
    type Error = T::Error;

    fn get_resource(&self, address: &AccountAddress, typ: &StructTag) -> Result<
        Option<Resource>,
        Self::Error,
    > {
        (**self).get_resource(address, typ)
    }
}

/// A storage backend that can resolve both resources and modules, with one
/// error type for both.
pub trait MoveResolver: ModuleResolver<Error = <Self as MoveResolver>::Err> + ResourceResolver<
    Error = <Self as MoveResolver>::Err,
> {
    type Err;
}

impl<E, T: ModuleResolver<Error = E> + ResourceResolver<Error = E>> MoveResolver for T {
    type Err = E;
}

} // verus!
