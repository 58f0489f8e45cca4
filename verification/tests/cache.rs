use move_core_types::value::{MoveStruct, MoveStructLayout, MoveTypeLayout, MoveValue};
use vm_data_cache::data_cache::{
    module_exists_outcome, module_read_outcome, resource_read_outcome, RemoteCache,
    TransactionDataCache,
};
use vm_data_cache::values::GlobalValue;
use vm_data_cache::effects::{BlobChangeSet, Data, Op};
use vm_data_cache::errors::StatusCode;
use vm_data_cache::ids::{AccountAddress, Identifier, ModuleId, StructTag, Type, TypeTag};
use vm_data_cache::loader::{Loader, TypeInfo};

struct TestStore {
    resources: Vec<((AccountAddress, StructTag), Vec<u8>)>,
    modules: Vec<(ModuleId, Vec<u8>)>,
    fail: bool,
}

impl TestStore {
    fn empty() -> Self {
        TestStore { resources: Vec::new(), modules: Vec::new(), fail: false }
    }

    fn failing() -> Self {
        TestStore { resources: Vec::new(), modules: Vec::new(), fail: true }
    }
}

impl RemoteCache for TestStore {
    type Error = String;

    fn get_resource(
        &self,
        address: &AccountAddress,
        tag: &StructTag,
    ) -> Result<Option<Vec<u8>>, String> {
        if self.fail {
            return Err(String::from("storage fault"));
        }
        for ((a, t), b) in &self.resources {
            if a == address && t == tag {
                return Ok(Some(b.clone()));
            }
        }
        Ok(None)
    }

    fn get_module(&self, module_id: &ModuleId) -> Result<Option<Vec<u8>>, String> {
        if self.fail {
            return Err(String::from("storage fault"));
        }
        for (id, b) in &self.modules {
            if id == module_id {
                return Ok(Some(b.clone()));
            }
        }
        Ok(None)
    }
}

fn addr(n: u128) -> AccountAddress {
    AccountAddress(n)
}

fn tag_r() -> StructTag {
    StructTag { address: addr(0xA), module: Identifier(1), name: Identifier(2) }
}

fn bytes3_layout() -> MoveTypeLayout {
    MoveTypeLayout::Struct(MoveStructLayout::Runtime(vec![
        MoveTypeLayout::U8,
        MoveTypeLayout::U8,
        MoveTypeLayout::U8,
    ]))
}

fn struct_value(fields: &[u8]) -> MoveValue {
    MoveValue::Struct(MoveStruct::Runtime(
        fields.iter().map(|b| MoveValue::U8(*b)).collect(),
    ))
}

/// Loader with: Type(0) = struct tag R with a three-u8 layout,
/// Type(1) = plain u64 (not a struct), Type(2) = struct with u64 layout.
fn test_loader() -> Loader {
    Loader::new(vec![
        TypeInfo { tag: TypeTag::Struct(tag_r()), layout: bytes3_layout() },
        TypeInfo { tag: TypeTag::U64, layout: MoveTypeLayout::U64 },
        TypeInfo {
            tag: TypeTag::Struct(StructTag {
                address: addr(0xB),
                module: Identifier(3),
                name: Identifier(4),
            }),
            layout: MoveTypeLayout::U64,
        },
    ])
}

#[test]
fn read_your_writes_without_resolver() {
    // Even a resolver that always fails is never consulted for a module in
    // the local write set.
    let store = TestStore::failing();
    let mut cache = TransactionDataCache::new(test_loader());
    let id = ModuleId { address: addr(7), name: Identifier(42) };
    cache.publish_module(&id, vec![9, 8, 7], false).unwrap();
    assert_eq!(cache.load_module(&store, &id).unwrap(), vec![9, 8, 7]);
    assert_eq!(cache.exists_module(&store, &id).unwrap(), true);
}

#[test]
fn republish_overwrites_local_write() {
    let store = TestStore::empty();
    let mut cache = TransactionDataCache::new(test_loader());
    let id = ModuleId { address: addr(7), name: Identifier(42) };
    cache.publish_module(&id, vec![1], false).unwrap();
    cache.publish_module(&id, vec![2, 3], true).unwrap();
    assert_eq!(cache.load_module(&store, &id).unwrap(), vec![2, 3]);
}

#[test]
fn load_module_from_store_and_linker_error() {
    let mut store = TestStore::empty();
    let id = ModuleId { address: addr(7), name: Identifier(42) };
    store.modules.push((id, vec![5, 5]));
    let cache = TransactionDataCache::new(test_loader());
    assert_eq!(cache.load_module(&store, &id).unwrap(), vec![5, 5]);
    let missing = ModuleId { address: addr(7), name: Identifier(43) };
    assert_eq!(cache.load_module(&store, &missing), Err(StatusCode::LinkerError));
}

#[test]
fn load_module_storage_fault() {
    let store = TestStore::failing();
    let cache = TransactionDataCache::new(test_loader());
    let id = ModuleId { address: addr(7), name: Identifier(42) };
    assert_eq!(
        cache.load_module(&store, &id),
        Err(StatusCode::UnknownInvariantViolationError)
    );
}

#[test]
fn exists_module_storage_fault_and_absence() {
    let store = TestStore::failing();
    let cache = TransactionDataCache::new(test_loader());
    let id = ModuleId { address: addr(7), name: Identifier(42) };
    assert_eq!(cache.exists_module(&store, &id), Err(StatusCode::StorageError));
    let ok_store = TestStore::empty();
    assert_eq!(cache.exists_module(&ok_store, &id).unwrap(), false);
}

#[test]
fn load_signal_exactly_once() {
    let mut store = TestStore::empty();
    store.resources.push(((addr(0xA), tag_r()), vec![1, 2, 3]));
    let mut cache = TransactionDataCache::new(test_loader());
    let first = cache.load_resource(&store, addr(0xA), Type(0)).unwrap();
    assert_eq!(first, Some(Some(3)));
    let second = cache.load_resource(&store, addr(0xA), Type(0)).unwrap();
    assert_eq!(second, None);
    let third = cache.load_resource(&store, addr(0xA), Type(0)).unwrap();
    assert_eq!(third, None);
}

#[test]
fn load_signal_not_found_once() {
    let store = TestStore::empty();
    let mut cache = TransactionDataCache::new(test_loader());
    assert_eq!(cache.load_resource(&store, addr(0xA), Type(0)).unwrap(), Some(None));
    assert_eq!(cache.load_resource(&store, addr(0xA), Type(0)).unwrap(), None);
}

#[test]
fn load_resource_error_paths() {
    let store = TestStore::empty();
    let mut cache = TransactionDataCache::new(test_loader());
    // Unknown runtime type.
    assert_eq!(
        cache.load_resource(&store, addr(1), Type(99)),
        Err(StatusCode::TypeResolutionFailure)
    );
    // A type that resolves, but not to a struct tag.
    assert_eq!(
        cache.load_resource(&store, addr(1), Type(1)),
        Err(StatusCode::InternalTypeError)
    );
    // Backing store failure.
    let failing = TestStore::failing();
    assert_eq!(
        cache.load_resource(&failing, addr(1), Type(0)),
        Err(StatusCode::UnknownInvariantViolationError)
    );
    // Stored bytes that do not decode under the layout (u64 needs 8 bytes).
    let mut bad = TestStore::empty();
    bad.resources.push((
        (addr(0xB), StructTag { address: addr(0xB), module: Identifier(3), name: Identifier(4) }),
        vec![1, 2, 3],
    ));
    assert_eq!(
        cache.load_resource(&bad, addr(0xB), Type(2)),
        Err(StatusCode::FailedToDeserializeResource)
    );
}

#[test]
fn slot_ops_require_a_loaded_slot() {
    let mut cache = TransactionDataCache::new(test_loader());
    assert_eq!(
        cache.write_resource(addr(1), Type(0), struct_value(&[1, 2, 3])),
        Err(StatusCode::MissingData)
    );
    assert_eq!(cache.move_resource_from(addr(1), Type(0)), Err(StatusCode::MissingData));
}

#[test]
fn diff_absent_before_and_after_is_omitted() {
    let store = TestStore::empty();
    let mut cache = TransactionDataCache::new(test_loader());
    cache.load_resource(&store, addr(0xA), Type(0)).unwrap();
    let (cs, events) = cache.into_effects().unwrap();
    assert!(cs.accounts().is_empty());
    assert!(events.is_empty());
}

#[test]
fn diff_create_when_absent_before() {
    let store = TestStore::empty();
    let mut cache = TransactionDataCache::new(test_loader());
    cache.load_resource(&store, addr(0xA), Type(0)).unwrap();
    cache.move_resource_to(addr(0xA), Type(0), struct_value(&[7, 8, 9])).unwrap();
    let (cs, _) = cache.into_effects().unwrap();
    let accounts = cs.accounts();
    assert_eq!(accounts.len(), 1);
    assert_eq!(accounts[0].0, addr(0xA));
    let resources = accounts[0].1.resources();
    assert_eq!(resources.len(), 1);
    assert_eq!(resources[0].0, tag_r());
    match &resources[0].1 {
        Op::New(data) => assert_eq!(data.simple_serialize().unwrap(), vec![7, 8, 9]),
        other => panic!("expected a creation, got {:?}", other),
    }
}

#[test]
fn diff_clean_load_is_omitted() {
    let mut store = TestStore::empty();
    store.resources.push(((addr(0xA), tag_r()), vec![1, 2, 3]));
    let mut cache = TransactionDataCache::new(test_loader());
    cache.load_resource(&store, addr(0xA), Type(0)).unwrap();
    let (cs, _) = cache.into_effects().unwrap();
    assert!(cs.accounts().is_empty());
}

#[test]
fn diff_delete_when_present_before() {
    let mut store = TestStore::empty();
    store.resources.push(((addr(0xA), tag_r()), vec![1, 2, 3]));
    let mut cache = TransactionDataCache::new(test_loader());
    cache.load_resource(&store, addr(0xA), Type(0)).unwrap();
    let taken = cache.move_resource_from(addr(0xA), Type(0)).unwrap();
    assert_eq!(taken, struct_value(&[1, 2, 3]));
    let (cs, _) = cache.into_effects().unwrap();
    let accounts = cs.accounts();
    assert_eq!(accounts.len(), 1);
    let resources = accounts[0].1.resources();
    assert_eq!(resources.len(), 1);
    assert!(matches!(resources[0].1, Op::Delete));
}

#[test]
fn scenario_modify_resource() {
    // Address A holds R as bytes [1,2,3]. Load it (signal: 3 bytes), write
    // a smaller value; commit yields Modify(A, R) encoding to [4,5], and A
    // counts as mutated while the sender is someone else.
    let mut store = TestStore::empty();
    store.resources.push(((addr(0xA), tag_r()), vec![1, 2, 3]));
    let mut cache = TransactionDataCache::new(test_loader());
    let signal = cache.load_resource(&store, addr(0xA), Type(0)).unwrap();
    assert_eq!(signal, Some(Some(3)));
    cache.write_resource(addr(0xA), Type(0), struct_value(&[4, 5])).unwrap();
    let sender = addr(0xFEE);
    assert_eq!(cache.num_mutated_accounts(&sender), 2);
    let (cs, _) = cache.into_effects().unwrap();
    let accounts = cs.accounts();
    assert_eq!(accounts.len(), 1);
    assert_eq!(accounts[0].0, addr(0xA));
    match &accounts[0].1.resources()[0].1 {
        Op::Modify(data) => assert_eq!(data.simple_serialize().unwrap(), vec![4, 5]),
        other => panic!("expected a modification, got {:?}", other),
    }
    let blob = BlobChangeSet::try_from(cs).unwrap();
    match &blob.accounts[0].1.resources[0].1 {
        Op::Modify(bytes) => assert_eq!(bytes, &vec![4, 5]),
        other => panic!("expected a modification, got {:?}", other),
    }
}

#[test]
fn scenario_publish_module_create() {
    // Publishing a fresh module yields Create regardless of resources.
    let mut cache = TransactionDataCache::new(test_loader());
    let id = ModuleId { address: addr(0xA), name: Identifier(77) };
    cache.publish_module(&id, vec![0xCA, 0xFE], false).unwrap();
    let (cs, _) = cache.into_effects().unwrap();
    let accounts = cs.accounts();
    assert_eq!(accounts.len(), 1);
    assert_eq!(accounts[0].0, addr(0xA));
    let modules = accounts[0].1.modules();
    assert_eq!(modules.len(), 1);
    assert_eq!(modules[0].0, Identifier(77));
    match &modules[0].1 {
        Op::New(b) => assert_eq!(b, &vec![0xCA, 0xFE]),
        other => panic!("expected a creation, got {:?}", other),
    }
}

#[test]
fn module_diff_modify_when_republishing() {
    let mut cache = TransactionDataCache::new(test_loader());
    let id = ModuleId { address: addr(0xA), name: Identifier(77) };
    cache.publish_module(&id, vec![1], true).unwrap();
    let (cs, _) = cache.into_effects().unwrap();
    match &cs.accounts()[0].1.modules()[0].1 {
        Op::Modify(b) => assert_eq!(b, &vec![1]),
        other => panic!("expected a modification, got {:?}", other),
    }
}

#[test]
fn sender_always_counted() {
    let store = TestStore::empty();
    let mut cache = TransactionDataCache::new(test_loader());
    assert_eq!(cache.num_mutated_accounts(&addr(0x5)), 1);
    // A pure read elsewhere does not add an account.
    cache.load_resource(&store, addr(0xA), Type(0)).unwrap();
    assert_eq!(cache.num_mutated_accounts(&addr(0x5)), 1);
    // The sender's own mutations do not double-count the sender.
    cache.load_resource(&store, addr(0x5), Type(0)).unwrap();
    cache.move_resource_to(addr(0x5), Type(0), struct_value(&[1, 1, 1])).unwrap();
    assert_eq!(cache.num_mutated_accounts(&addr(0x5)), 1);
}

#[test]
fn event_order_preserved() {
    let store = TestStore::empty();
    let mut cache = TransactionDataCache::new(test_loader());
    cache.emit_event(vec![1], 10, Type(1), MoveValue::U64(111)).unwrap();
    // Interleave module and resource traffic between emissions.
    let id = ModuleId { address: addr(0xA), name: Identifier(77) };
    cache.publish_module(&id, vec![1], false).unwrap();
    cache.emit_event(vec![2], 20, Type(1), MoveValue::U64(222)).unwrap();
    cache.load_resource(&store, addr(0xA), Type(0)).unwrap();
    cache.emit_event(vec![3], 30, Type(1), MoveValue::U64(333)).unwrap();
    let (_, events) = cache.into_effects().unwrap();
    assert_eq!(events.len(), 3);
    assert_eq!(events[0].0, vec![1]);
    assert_eq!(events[0].1, 10);
    assert_eq!(events[0].2, TypeTag::U64);
    assert_eq!(events[0].3, 111u64.to_le_bytes().to_vec());
    assert_eq!(events[1].0, vec![2]);
    assert_eq!(events[1].1, 20);
    assert_eq!(events[1].3, 222u64.to_le_bytes().to_vec());
    assert_eq!(events[2].0, vec![3]);
    assert_eq!(events[2].1, 30);
    assert_eq!(events[2].3, 333u64.to_le_bytes().to_vec());
}

#[test]
fn changeset_accounts_sorted_by_address() {
    // The committed change set iterates addresses in ascending order,
    // whatever order this transaction first touched them in.
    let mut cache = TransactionDataCache::new(test_loader());
    let id_b = ModuleId { address: addr(0xB0), name: Identifier(1) };
    let id_a = ModuleId { address: addr(0x0A), name: Identifier(1) };
    cache.publish_module(&id_b, vec![1], false).unwrap();
    cache.publish_module(&id_a, vec![2], false).unwrap();
    let (cs, _) = cache.into_effects().unwrap();
    let accounts = cs.accounts();
    assert_eq!(accounts.len(), 2);
    assert_eq!(accounts[0].0, addr(0x0A));
    assert_eq!(accounts[1].0, addr(0xB0));
}

#[test]
fn changeset_modules_sorted_by_name() {
    // Module names of one account come out ascending, not in write order.
    let mut cache = TransactionDataCache::new(test_loader());
    cache
        .publish_module(&ModuleId { address: addr(1), name: Identifier(9) }, vec![9], false)
        .unwrap();
    cache
        .publish_module(&ModuleId { address: addr(1), name: Identifier(3) }, vec![3], false)
        .unwrap();
    cache
        .publish_module(&ModuleId { address: addr(1), name: Identifier(6) }, vec![6], true)
        .unwrap();
    let (cs, _) = cache.into_effects().unwrap();
    let modules = cs.accounts()[0].1.modules();
    assert_eq!(modules.len(), 3);
    assert_eq!(modules[0].0, Identifier(3));
    assert_eq!(modules[1].0, Identifier(6));
    assert_eq!(modules[2].0, Identifier(9));
    assert!(matches!(&modules[0].1, Op::New(b) if b == &vec![3]));
    assert!(matches!(&modules[1].1, Op::Modify(b) if b == &vec![6]));
}

#[test]
fn changeset_resources_sorted_by_tag() {
    // Resource tags of one account come out ascending, not in touch order.
    // Type(0) has tag (0xA, 1, 2); Type(2) has tag (0xB, 3, 4): loading the
    // larger tag's type first must not change the committed order.
    let store = TestStore::empty();
    let mut cache = TransactionDataCache::new(test_loader());
    cache.load_resource(&store, addr(1), Type(2)).unwrap();
    cache.move_resource_to(addr(1), Type(2), MoveValue::U64(7)).unwrap();
    cache.load_resource(&store, addr(1), Type(0)).unwrap();
    cache.move_resource_to(addr(1), Type(0), struct_value(&[1, 2, 3])).unwrap();
    let (cs, _) = cache.into_effects().unwrap();
    let resources = cs.accounts()[0].1.resources();
    assert_eq!(resources.len(), 2);
    assert_eq!(resources[0].0, tag_r());
    assert_eq!(
        resources[1].0,
        StructTag { address: addr(0xB), module: Identifier(3), name: Identifier(4) }
    );
}

#[test]
fn emit_event_unknown_type_fails() {
    let mut cache = TransactionDataCache::new(test_loader());
    assert_eq!(
        cache.emit_event(vec![1], 1, Type(99), MoveValue::U64(1)),
        Err(StatusCode::TypeResolutionFailure)
    );
    assert!(cache.events().is_empty());
}

#[test]
fn resource_read_outcome_per_answer() {
    // Nothing found: an absent slot and the "not found" signal.
    let r = resource_read_outcome::<String>(Ok(None), &MoveTypeLayout::U64).unwrap();
    assert!(matches!(r.0, GlobalValue::Absent));
    assert_eq!(r.1, Some(None));
    // Bytes found that decode: a clean cached slot and their byte length.
    let r = resource_read_outcome::<String>(
        Ok(Some(7u64.to_le_bytes().to_vec())),
        &MoveTypeLayout::U64,
    )
    .unwrap();
    assert!(matches!(r.0, GlobalValue::Cached { value: MoveValue::U64(7), .. }));
    assert_eq!(r.1, Some(Some(8)));
    // Bytes that do not decode: the corrupted-storage status.
    assert!(matches!(
        resource_read_outcome::<String>(Ok(Some(vec![1])), &MoveTypeLayout::U64),
        Err(StatusCode::FailedToDeserializeResource)
    ));
    // A store fault: the invariant-violation status.
    assert!(matches!(
        resource_read_outcome(Err(String::from("io")), &MoveTypeLayout::U64),
        Err(StatusCode::UnknownInvariantViolationError)
    ));
}

#[test]
fn module_outcomes_per_answer() {
    assert_eq!(module_read_outcome::<String>(Ok(Some(vec![5]))), Ok(vec![5]));
    assert_eq!(module_read_outcome::<String>(Ok(None)), Err(StatusCode::LinkerError));
    assert_eq!(
        module_read_outcome(Err(String::from("io"))),
        Err(StatusCode::UnknownInvariantViolationError)
    );
    assert_eq!(module_exists_outcome::<String>(Ok(Some(vec![5]))), Ok(true));
    assert_eq!(module_exists_outcome::<String>(Ok(None)), Ok(false));
    assert_eq!(module_exists_outcome(Err(String::from("io"))), Err(StatusCode::StorageError));
}

#[test]
fn events_accessor_tracks_emissions() {
    let mut cache = TransactionDataCache::new(test_loader());
    cache.emit_event(vec![9], 1, Type(1), MoveValue::U64(5)).unwrap();
    assert_eq!(cache.events().len(), 1);
    assert_eq!(cache.events()[0].0, vec![9]);
    assert_eq!(cache.events()[0].1, 1);
}
