use move_core_types::value::{MoveStruct, MoveStructLayout, MoveTypeLayout, MoveValue};
use vm_data_cache::effects::{
    AccountChangeSet, BlobAccountChangeSet, ChangeSet, ChangeSetError, Data, Op,
};
use vm_data_cache::ids::{AccountAddress, Identifier, ModuleId, StructTag};
use vm_data_cache::resolver::Resource;
use vm_data_cache::values::{GlobalDataStatus, GlobalValue};

fn tag(n: u64) -> StructTag {
    StructTag { address: AccountAddress(0xA), module: Identifier(1), name: Identifier(n) }
}

#[test]
fn slot_into_effect_five_cases() {
    // Absent before and after: no operation.
    assert!(GlobalValue::none().into_effect().is_none());
    // Loaded and untouched: no operation.
    let clean = GlobalValue::cached(MoveValue::U8(1));
    assert!(clean.into_effect().is_none());
    // Created this transaction: a creation.
    let mut fresh = GlobalValue::none();
    fresh.move_to(MoveValue::U8(2)).unwrap();
    assert!(matches!(fresh.into_effect(), Some(Op::New(MoveValue::U8(2)))));
    // Loaded then written: a modification.
    let mut dirty = GlobalValue::cached(MoveValue::U8(1));
    dirty.write_value(MoveValue::U8(9)).unwrap();
    assert!(matches!(dirty.into_effect(), Some(Op::Modify(MoveValue::U8(9)))));
    // Loaded then taken out: a deletion.
    let mut gone = GlobalValue::cached(MoveValue::U8(1));
    assert_eq!(gone.move_from().unwrap(), MoveValue::U8(1));
    assert!(matches!(gone.into_effect(), Some(Op::Delete)));
}

#[test]
fn slot_state_machine_edges() {
    // A fresh value taken back out leaves nothing behind.
    let mut gv = GlobalValue::none();
    gv.move_to(MoveValue::U8(1)).unwrap();
    assert_eq!(gv.move_from().unwrap(), MoveValue::U8(1));
    assert!(gv.into_effect().is_none());
    // Deleting a stored value and publishing again nets a modification.
    let mut gv2 = GlobalValue::cached(MoveValue::U8(1));
    gv2.move_from().unwrap();
    gv2.move_to(MoveValue::U8(2)).unwrap();
    assert!(matches!(gv2.into_effect(), Some(Op::Modify(MoveValue::U8(2)))));
    // Publishing over an occupied slot is refused.
    let mut gv3 = GlobalValue::cached(MoveValue::U8(1));
    assert!(gv3.move_to(MoveValue::U8(2)).is_err());
    // Taking out of or writing to an empty slot is refused.
    let mut gv4 = GlobalValue::none();
    assert!(gv4.move_from().is_err());
    assert!(gv4.write_value(MoveValue::U8(1)).is_err());
}

#[test]
fn slot_is_mutated() {
    assert!(!GlobalValue::none().is_mutated());
    assert!(!GlobalValue::cached(MoveValue::U8(1)).is_mutated());
    let mut fresh = GlobalValue::none();
    fresh.move_to(MoveValue::U8(1)).unwrap();
    assert!(fresh.is_mutated());
    let mut dirty = GlobalValue::cached(MoveValue::U8(1));
    dirty.write_value(MoveValue::U8(2)).unwrap();
    assert!(dirty.is_mutated());
    let _ = GlobalDataStatus::Clean;
}

#[test]
fn account_changeset_rejects_duplicate_module() {
    let mut acs = AccountChangeSet::new();
    acs.add_module_op(Identifier(1), Op::New(vec![1])).unwrap();
    assert_eq!(
        acs.add_module_op(Identifier(1), Op::Modify(vec![2])),
        Err(ChangeSetError::ModuleAlreadyExists)
    );
    // The first operation is untouched.
    assert!(matches!(&acs.modules()[0].1, Op::New(b) if b == &vec![1]));
    assert!(!acs.is_empty());
}

#[test]
fn account_changeset_rejects_duplicate_resource() {
    let mut acs = AccountChangeSet::new();
    acs.add_resource_op(tag(5), Op::Delete).unwrap();
    assert_eq!(
        acs.add_resource_op(tag(5), Op::New(Data::from_bytes(vec![1]))),
        Err(ChangeSetError::ResourceAlreadyExists)
    );
    assert_eq!(acs.resources().len(), 1);
}

#[test]
fn changeset_rejects_duplicate_account() {
    let mut cs = ChangeSet::new();
    cs.add_account_changeset(AccountAddress(1), AccountChangeSet::new()).unwrap();
    assert_eq!(
        cs.add_account_changeset(AccountAddress(1), AccountChangeSet::new()),
        Err(ChangeSetError::AccountAlreadyExists)
    );
    assert_eq!(cs.accounts().len(), 1);
}

#[test]
fn changeset_add_ops_create_accounts_on_first_touch() {
    let mut cs = ChangeSet::new();
    let id = ModuleId { address: AccountAddress(1), name: Identifier(7) };
    cs.add_module_op(id, Op::New(vec![1])).unwrap();
    assert_eq!(
        cs.add_module_op(id, Op::New(vec![2])),
        Err(ChangeSetError::ModuleAlreadyExists)
    );
    cs.add_resource_op(AccountAddress(1), tag(5), Op::Delete).unwrap();
    assert_eq!(
        cs.add_resource_op(AccountAddress(1), tag(5), Op::Delete),
        Err(ChangeSetError::ResourceAlreadyExists)
    );
    assert_eq!(cs.accounts().len(), 1);
    let (modules, resources) = (cs.accounts()[0].1.modules(), cs.accounts()[0].1.resources());
    assert_eq!(modules.len(), 1);
    assert_eq!(resources.len(), 1);
}

#[test]
fn data_forms_serialize_alike() {
    let bytes = Data::from_bytes(vec![4, 5]);
    assert_eq!(bytes.simple_serialize().unwrap(), vec![4, 5]);
    let layout = MoveTypeLayout::Struct(MoveStructLayout::Runtime(vec![
        MoveTypeLayout::U8,
        MoveTypeLayout::U8,
    ]));
    let value = MoveValue::Struct(MoveStruct::Runtime(vec![MoveValue::U8(4), MoveValue::U8(5)]));
    let cached = Data::from_value(value, layout);
    assert_eq!(cached.simple_serialize().unwrap(), vec![4, 5]);
}

#[test]
fn blob_account_changeset_encodes_each_op() {
    let mut acs = AccountChangeSet::new();
    acs.add_module_op(Identifier(1), Op::New(vec![1, 2])).unwrap();
    acs.add_resource_op(tag(5), Op::New(Data::from_bytes(vec![3]))).unwrap();
    acs.add_resource_op(
        tag(6),
        Op::Modify(Data::from_value(MoveValue::U64(7), MoveTypeLayout::U64)),
    )
    .unwrap();
    acs.add_resource_op(tag(7), Op::Delete).unwrap();
    let blob = BlobAccountChangeSet::try_from(acs).unwrap();
    assert_eq!(blob.modules.len(), 1);
    assert_eq!(blob.resources.len(), 3);
    assert!(matches!(&blob.resources[0].1, Op::New(b) if b == &vec![3]));
    assert!(matches!(&blob.resources[1].1, Op::Modify(b) if b == &7u64.to_le_bytes().to_vec()));
    assert!(matches!(&blob.resources[2].1, Op::Delete));
}

#[test]
fn account_changeset_inner_accessors() {
    let mut acs = AccountChangeSet::new();
    acs.add_module_op(Identifier(1), Op::New(vec![1])).unwrap();
    acs.add_resource_op(tag(5), Op::Delete).unwrap();
    let copy = AccountChangeSet::from_modules_resources(
        vec![(Identifier(1), Op::New(vec![1]))],
        Vec::new(),
    );
    assert_eq!(copy.modules().len(), 1);
    assert!(copy.resources().is_empty());
    let (modules, resources) = acs.into_inner();
    assert_eq!(modules.len(), 1);
    assert_eq!(resources.len(), 1);
    let mut acs2 = AccountChangeSet::new();
    acs2.add_module_op(Identifier(2), Op::Delete).unwrap();
    assert_eq!(acs2.into_modules().len(), 1);
    let mut acs3 = AccountChangeSet::new();
    acs3.add_resource_op(tag(9), Op::Delete).unwrap();
    assert_eq!(acs3.into_resources().len(), 1);
    let mut cs = ChangeSet::new();
    cs.add_account_changeset(AccountAddress(1), AccountChangeSet::new()).unwrap();
    assert_eq!(cs.into_inner().len(), 1);
}

#[test]
fn resource_conversions() {
    let owned: Vec<u8> = vec![1, 2];
    assert!(matches!(Resource::from(owned), Resource::Serialized(b) if b == vec![1, 2]));
    let borrowed: Vec<u8> = vec![3];
    assert!(matches!(Resource::from(&borrowed), Resource::Serialized(b) if b == vec![3]));
    let data = Data::from_bytes(vec![9]);
    assert!(matches!(Resource::from(&data), Resource::Serialized(b) if b == vec![9]));
    assert!(matches!(Resource::from(data), Resource::Serialized(b) if b == vec![9]));
    let cached = Data::from_value(MoveValue::U8(3), MoveTypeLayout::U8);
    assert!(matches!(Resource::from(&cached), Resource::Cached(MoveValue::U8(3))));
    assert!(matches!(Resource::from(cached), Resource::Cached(MoveValue::U8(3))));
}
