//! Identity types for on-chain state: account addresses, interned names,
//! module ids, runtime types and their canonical tags.
//!
//! The cache never looks inside a name or an address; it only compares them
//! and orders its output by them. An address is therefore held as its numeric
//! value, and a module or struct name as an interned symbol.

use vstd::prelude::*;

verus! {

/// An on-chain account address, as its numeric value.
#[derive(Clone, Copy, Debug, PartialEq, Eq, Structural)]
pub struct AccountAddress(pub u128);

/// An interned module or struct name.
#[derive(Clone, Copy, Debug, PartialEq, Eq, Structural)]
pub struct Identifier(pub u64);

/// The id of a published module: the address it lives under and its name.
#[derive(Clone, Copy, Debug, PartialEq, Eq, Structural)]
pub struct ModuleId {
    pub address: AccountAddress,
    pub name: Identifier,
}

/// The canonical tag of a struct type: where it was declared and its name.
#[derive(Clone, Copy, Debug, PartialEq, Eq, Structural)]
pub struct StructTag {
    pub address: AccountAddress,
    pub module: Identifier,
    pub name: Identifier,
}

/// The canonical, serializable tag of a runtime type. Resources are keyed by
/// struct tags; the other variants occur only as event types.
#[derive(Clone, Copy, Debug, PartialEq, Eq, Structural)]
pub enum TypeTag {
    Bool,
    U8,
    U64,
    U128,
    Address,
    Signer,
    Struct(StructTag),
}

/// A runtime type, as the index the loader knows it under.
#[derive(Clone, Copy, Debug, PartialEq, Eq, Structural)]
pub struct Type(pub u64);

} // verus!
