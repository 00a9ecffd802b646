use mock_runtime::binding::{Binding, CompositeKind, TypeRef};
use mock_runtime::descriptor::{Capabilities, ModuleDescriptor, ParamSpec};
use mock_runtime::keys::StorageEntry;
use mock_runtime::runtime::{Call, CompositeRuntime, Event, Keying};
use mock_runtime::schema::{validate, CompositionError};

const LEDGER: u64 = 7;
const CUSTOM: u64 = 0x0102;

const ACCOUNT: u64 = 100;
const EVENT: u64 = 101;
const WEIGHTS: u64 = 102;

fn entry(key: &[u8], value: &[u8]) -> StorageEntry {
    StorageEntry { key: key.to_vec(), value: value.to_vec() }
}

fn ledger() -> ModuleDescriptor {
    ModuleDescriptor {
        id: LEDGER,
        capabilities: Capabilities { call: true, event: true, storage: true, genesis: true },
        params: vec![
            ParamSpec { id: ACCOUNT, unit_allowed: false },
            ParamSpec { id: EVENT, unit_allowed: false },
            ParamSpec { id: WEIGHTS, unit_allowed: true },
        ],
        default_genesis: vec![entry(b"height", &[0])],
    }
}

fn custom() -> ModuleDescriptor {
    ModuleDescriptor {
        id: CUSTOM,
        capabilities: Capabilities { call: false, event: true, storage: true, genesis: true },
        params: vec![ParamSpec { id: EVENT, unit_allowed: false }],
        default_genesis: vec![],
    }
}

fn bindings() -> Vec<Binding> {
    vec![
        Binding { module: LEDGER, param: ACCOUNT, ty: TypeRef::Concrete(0) },
        Binding { module: LEDGER, param: EVENT, ty: TypeRef::Composite(CompositeKind::Event) },
        Binding { module: LEDGER, param: WEIGHTS, ty: TypeRef::Unit },
        Binding { module: CUSTOM, param: EVENT, ty: TypeRef::Composite(CompositeKind::Event) },
    ]
}

fn composed(keying: Keying) -> CompositeRuntime {
    CompositeRuntime::compose(vec![ledger(), custom()], bindings(), keying).unwrap()
}

fn compose_error(modules: Vec<ModuleDescriptor>, bindings: Vec<Binding>) -> CompositionError {
    match CompositeRuntime::compose(modules, bindings, Keying::ByIdentity) {
        Ok(_) => panic!("composition was expected to fail"),
        Err(e) => e,
    }
}

#[test]
fn fully_bound_modules_compose() {
    let runtime = composed(Keying::ByIdentity);
    assert_eq!(runtime.modules().len(), 2);
    assert_eq!(runtime.modules()[0], ledger());
    assert_eq!(runtime.modules()[1], custom());
    assert_eq!(runtime.bindings(), &bindings());
    assert_eq!(runtime.keying(), Keying::ByIdentity);
    assert_eq!(validate(&vec![ledger(), custom()], &bindings()), Ok(()));
}

#[test]
fn empty_description_composes() {
    let runtime = CompositeRuntime::compose(vec![], vec![], Keying::ByPosition).unwrap();
    assert_eq!(runtime.modules().len(), 0);
    assert_eq!(runtime.position(LEDGER), None);
    assert_eq!(runtime.storage_prefix(LEDGER), None);
}

#[test]
fn default_keying_follows_identity() {
    assert_eq!(Keying::default(), Keying::ByIdentity);
}

#[test]
fn storage_prefixes_follow_identity() {
    let runtime = composed(Keying::ByIdentity);
    assert_eq!(runtime.storage_prefix(LEDGER), Some(vec![0x6d, 7, 0, 0, 0, 0, 0, 0, 0]));
    assert_eq!(runtime.storage_prefix(CUSTOM), Some(vec![0x6d, 2, 1, 0, 0, 0, 0, 0, 0]));
    assert_eq!(runtime.storage_prefix(99), None);
}

#[test]
fn storage_prefixes_follow_position() {
    let runtime = composed(Keying::ByPosition);
    assert_eq!(runtime.storage_prefix(LEDGER), Some(vec![0x6d, 0, 0, 0, 0, 0, 0, 0, 0]));
    assert_eq!(runtime.storage_prefix(CUSTOM), Some(vec![0x6d, 1, 0, 0, 0, 0, 0, 0, 0]));
}

#[test]
fn storage_prefixes_are_pairwise_distinct() {
    for keying in [Keying::ByIdentity, Keying::ByPosition] {
        let modules: Vec<ModuleDescriptor> = (0..40u64)
            .map(|n| ModuleDescriptor {
                id: n * 0x0101_0101,
                capabilities: Capabilities {
                    call: false,
                    event: false,
                    storage: true,
                    genesis: false,
                },
                params: vec![],
                default_genesis: vec![],
            })
            .collect();
        let ids: Vec<u64> = modules.iter().map(|m| m.id).collect();
        let runtime = CompositeRuntime::compose(modules, vec![], keying).unwrap();
        let prefixes: Vec<Vec<u8>> =
            ids.iter().map(|id| runtime.storage_prefix(*id).unwrap()).collect();
        for a in 0..prefixes.len() {
            assert_eq!(prefixes[a].len(), 9);
            for b in 0..a {
                assert_ne!(prefixes[a], prefixes[b]);
            }
        }
    }
}

#[test]
fn reordering_keeps_identity_prefixes_and_moves_positional_ones() {
    let reordered = |keying| {
        let mut table = bindings();
        table.rotate_left(3);
        CompositeRuntime::compose(vec![custom(), ledger()], table, keying).unwrap()
    };
    assert_eq!(
        reordered(Keying::ByIdentity).storage_prefix(LEDGER),
        composed(Keying::ByIdentity).storage_prefix(LEDGER)
    );
    assert_ne!(
        reordered(Keying::ByPosition).storage_prefix(LEDGER),
        composed(Keying::ByPosition).storage_prefix(LEDGER)
    );
}

#[test]
fn item_key_appends_the_item_to_the_prefix() {
    let runtime = composed(Keying::ByIdentity);
    assert_eq!(
        runtime.item_key(CUSTOM, &b"ab".to_vec()),
        Some(vec![0x6d, 2, 1, 0, 0, 0, 0, 0, 0, b'a', b'b'])
    );
    assert_eq!(runtime.item_key(99, &b"ab".to_vec()), None);
    let mut stateless = custom();
    stateless.capabilities.storage = false;
    stateless.capabilities.genesis = false;
    let runtime = CompositeRuntime::compose(
        vec![stateless],
        vec![Binding { module: CUSTOM, param: EVENT, ty: TypeRef::Concrete(1) }],
        Keying::ByIdentity,
    )
    .unwrap();
    assert_eq!(runtime.item_key(CUSTOM, &b"ab".to_vec()), None);
    assert_eq!(runtime.storage_prefix(CUSTOM), Some(vec![0x6d, 2, 1, 0, 0, 0, 0, 0, 0]));
}

#[test]
fn positions_are_found() {
    let runtime = composed(Keying::ByIdentity);
    assert_eq!(runtime.position(LEDGER), Some(0));
    assert_eq!(runtime.position(CUSTOM), Some(1));
    assert_eq!(runtime.position(8), None);
    assert_eq!(runtime.namespace_of(CUSTOM), Some(CUSTOM));
    assert_eq!(runtime.namespace_of(8), None);
    assert_eq!(composed(Keying::ByPosition).namespace_of(CUSTOM), Some(1));
    assert_eq!(composed(Keying::ByPosition).namespace_of(LEDGER), Some(0));
}

#[test]
fn bindings_are_resolved() {
    let runtime = composed(Keying::ByIdentity);
    assert_eq!(runtime.resolve(LEDGER, ACCOUNT), Some(TypeRef::Concrete(0)));
    assert_eq!(runtime.resolve(LEDGER, WEIGHTS), Some(TypeRef::Unit));
    assert_eq!(runtime.resolve(CUSTOM, EVENT), Some(TypeRef::Composite(CompositeKind::Event)));
    assert_eq!(runtime.resolve(CUSTOM, ACCOUNT), None);
    assert_eq!(runtime.resolve(99, EVENT), None);
}

#[test]
fn calls_are_routed_to_their_module() {
    let runtime = composed(Keying::ByIdentity);
    let call = runtime.wrap_call(LEDGER, vec![1, 2, 3]).unwrap();
    assert_eq!(call, Call { tag: LEDGER, payload: vec![1, 2, 3] });
    assert_eq!(runtime.route(&call), Some(LEDGER));
    assert_eq!(runtime.dispatch_tag(LEDGER), Some(LEDGER));
}

#[test]
fn calls_are_tagged_by_position_when_asked() {
    let runtime = CompositeRuntime::compose(
        vec![custom(), ledger()],
        bindings(),
        Keying::ByPosition,
    )
    .unwrap();
    let call = runtime.wrap_call(LEDGER, vec![9]).unwrap();
    assert_eq!(call.tag, 1);
    assert_eq!(runtime.route(&call), Some(LEDGER));
    assert_eq!(runtime.route(&Call { tag: 2, payload: vec![] }), None);
}

#[test]
fn modules_without_calls_are_not_routed_to() {
    let runtime = composed(Keying::ByIdentity);
    assert_eq!(runtime.wrap_call(CUSTOM, vec![1]), None);
    assert_eq!(runtime.dispatch_tag(CUSTOM), None);
    assert_eq!(runtime.route(&Call { tag: CUSTOM, payload: vec![1] }), None);
    assert_eq!(runtime.route(&Call { tag: 55, payload: vec![1] }), None);
    assert_eq!(runtime.wrap_call(55, vec![1]), None);
}

#[test]
fn events_keep_their_payload_and_their_source() {
    let runtime = composed(Keying::ByIdentity);
    let event = runtime.wrap_event(CUSTOM, vec![4, 5]).unwrap();
    assert_eq!(event, Event { tag: CUSTOM, payload: vec![4, 5] });
    assert_eq!(runtime.event_source(&event), Some(CUSTOM));
    let other = runtime.wrap_event(LEDGER, vec![4, 5]).unwrap();
    assert_eq!(runtime.event_source(&other), Some(LEDGER));
    assert_eq!(runtime.event_source(&Event { tag: 3, payload: vec![] }), None);
    assert_eq!(runtime.wrap_event(3, vec![]), None);
}

#[test]
fn modules_without_events_emit_none() {
    let mut silent = custom();
    silent.capabilities.event = false;
    let runtime = CompositeRuntime::compose(
        vec![silent],
        vec![Binding { module: CUSTOM, param: EVENT, ty: TypeRef::Concrete(1) }],
        Keying::ByIdentity,
    )
    .unwrap();
    assert_eq!(runtime.wrap_event(CUSTOM, vec![1]), None);
    assert_eq!(runtime.event_source(&Event { tag: CUSTOM, payload: vec![1] }), None);
}

#[test]
fn duplicate_module_is_rejected() {
    let e = compose_error(vec![ledger(), custom(), ledger()], bindings());
    assert_eq!(e, CompositionError::DuplicateModule { index: 2, module: LEDGER });
}

#[test]
fn module_with_a_repeated_parameter_is_rejected() {
    let mut broken = custom();
    broken.params.push(ParamSpec { id: EVENT, unit_allowed: true });
    let e = compose_error(vec![ledger(), broken], bindings());
    assert_eq!(e, CompositionError::MalformedModule { index: 1, module: CUSTOM });
}

#[test]
fn module_with_a_repeated_default_key_is_rejected() {
    let mut broken = ledger();
    broken.default_genesis.push(entry(b"height", &[1]));
    let e = compose_error(vec![broken, custom()], bindings());
    assert_eq!(e, CompositionError::MalformedModule { index: 0, module: LEDGER });
}

#[test]
fn every_subset_of_capabilities_composes() {
    for bits in 0..16u8 {
        let module = ModuleDescriptor {
            id: CUSTOM,
            capabilities: Capabilities {
                call: bits & 1 != 0,
                event: bits & 2 != 0,
                storage: bits & 4 != 0,
                genesis: bits & 8 != 0,
            },
            params: vec![],
            default_genesis: vec![],
        };
        assert!(module.is_well_formed());
        let runtime = CompositeRuntime::compose(vec![module], vec![], Keying::ByIdentity).unwrap();
        assert_eq!(runtime.position(CUSTOM), Some(0));
    }
}

#[test]
fn module_with_genesis_but_no_storage_composes() {
    let mut odd = custom();
    odd.capabilities.storage = false;
    let runtime = CompositeRuntime::compose(vec![ledger(), odd], bindings(), Keying::ByIdentity).unwrap();
    assert_eq!(runtime.configurable_modules(), vec![LEDGER, CUSTOM]);
    assert_eq!(runtime.item_key(CUSTOM, &b"a".to_vec()), None);
}

#[test]
fn module_with_a_default_key_too_long_is_rejected() {
    let mut fits = ledger();
    fits.default_genesis.push(StorageEntry { key: vec![7; 32758], value: vec![1] });
    assert!(fits.is_well_formed());
    assert!(CompositeRuntime::compose(vec![fits, custom()], bindings(), Keying::ByIdentity).is_ok());
    let mut broken = ledger();
    broken.default_genesis.push(StorageEntry { key: vec![7; 32759], value: vec![1] });
    assert!(!broken.is_well_formed());
    let e = compose_error(vec![custom(), broken], bindings());
    assert_eq!(e, CompositionError::MalformedModule { index: 1, module: LEDGER });
}

#[test]
fn module_with_defaults_but_no_genesis_is_rejected() {
    let mut broken = ledger();
    broken.capabilities.genesis = false;
    let e = compose_error(vec![broken, custom()], bindings());
    assert_eq!(e, CompositionError::MalformedModule { index: 0, module: LEDGER });
}

#[test]
fn binding_for_an_unknown_module_is_rejected() {
    let mut table = bindings();
    table.insert(1, Binding { module: 99, param: EVENT, ty: TypeRef::Unit });
    let e = compose_error(vec![ledger(), custom()], table);
    assert_eq!(e, CompositionError::UnexpectedBinding { index: 1, module: 99, param: EVENT });
}

#[test]
fn binding_for_an_undeclared_parameter_is_rejected() {
    let mut table = bindings();
    table.push(Binding { module: CUSTOM, param: ACCOUNT, ty: TypeRef::Concrete(0) });
    let e = compose_error(vec![ledger(), custom()], table);
    assert_eq!(e, CompositionError::UnexpectedBinding { index: 4, module: CUSTOM, param: ACCOUNT });
}

#[test]
fn duplicate_binding_is_rejected() {
    let mut table = bindings();
    table.push(Binding { module: LEDGER, param: ACCOUNT, ty: TypeRef::Concrete(0) });
    let e = compose_error(vec![ledger(), custom()], table);
    assert_eq!(e, CompositionError::DuplicateBinding { index: 4, module: LEDGER, param: ACCOUNT });
}

#[test]
fn conflicting_binding_of_one_parameter_is_a_duplicate() {
    let mut table = bindings();
    table.push(Binding { module: LEDGER, param: ACCOUNT, ty: TypeRef::Concrete(5) });
    let e = compose_error(vec![ledger(), custom()], table);
    assert_eq!(e, CompositionError::DuplicateBinding { index: 4, module: LEDGER, param: ACCOUNT });
}

#[test]
fn unit_is_rejected_where_not_permitted() {
    let mut table = bindings();
    table[0].ty = TypeRef::Unit;
    let e = compose_error(vec![ledger(), custom()], table);
    assert_eq!(e, CompositionError::UnitNotPermitted { index: 0, module: LEDGER, param: ACCOUNT });
}

#[test]
fn incompatible_bindings_of_a_shared_parameter_are_rejected() {
    let mut table = bindings();
    table[3].ty = TypeRef::Concrete(9);
    let e = compose_error(vec![ledger(), custom()], table);
    assert_eq!(
        e,
        CompositionError::IncompatibleBinding {
            index: 3,
            earlier: 1,
            module: CUSTOM,
            earlier_module: LEDGER,
            param: EVENT,
        }
    );
}

#[test]
fn missing_binding_is_rejected() {
    let mut table = bindings();
    table.remove(2);
    let e = compose_error(vec![ledger(), custom()], table);
    assert_eq!(
        e,
        CompositionError::MissingBinding {
            module_index: 0,
            param_index: 2,
            module: LEDGER,
            param: WEIGHTS,
        }
    );
}

#[test]
fn removing_any_binding_fails_composition() {
    let targets = [(0, 0, LEDGER, ACCOUNT), (0, 1, LEDGER, EVENT), (0, 2, LEDGER, WEIGHTS), (1, 0, CUSTOM, EVENT)];
    for k in 0..bindings().len() {
        let mut table = bindings();
        table.remove(k);
        let (module_index, param_index, module, param) = targets[k];
        assert_eq!(
            compose_error(vec![ledger(), custom()], table),
            CompositionError::MissingBinding { module_index, param_index, module, param }
        );
    }
}

#[test]
fn module_defects_are_reported_before_binding_defects() {
    let mut table = bindings();
    table.remove(0);
    let e = compose_error(vec![ledger(), ledger()], table);
    assert_eq!(e, CompositionError::DuplicateModule { index: 1, module: LEDGER });
}

#[test]
fn binding_defects_are_reported_before_missing_bindings() {
    let mut table = bindings();
    table.remove(0);
    table.push(Binding { module: 99, param: 1, ty: TypeRef::Unit });
    let e = compose_error(vec![ledger(), custom()], table);
    assert_eq!(e, CompositionError::UnexpectedBinding { index: 3, module: 99, param: 1 });
}

#[test]
fn validate_reports_what_compose_reports() {
    let mut table = bindings();
    table.remove(3);
    assert_eq!(
        validate(&vec![ledger(), custom()], &table),
        Err(CompositionError::MissingBinding {
            module_index: 1,
            param_index: 0,
            module: CUSTOM,
            param: EVENT,
        })
    );
}

#[test]
fn prefix_table_lists_every_module_in_order() {
    let runtime = composed(Keying::ByIdentity);
    assert_eq!(
        runtime.prefix_table(),
        vec![
            (LEDGER, vec![0x6d, 7, 0, 0, 0, 0, 0, 0, 0]),
            (CUSTOM, vec![0x6d, 2, 1, 0, 0, 0, 0, 0, 0]),
        ]
    );
    let positional = composed(Keying::ByPosition);
    assert_eq!(
        positional.prefix_table(),
        vec![
            (LEDGER, vec![0x6d, 0, 0, 0, 0, 0, 0, 0, 0]),
            (CUSTOM, vec![0x6d, 1, 0, 0, 0, 0, 0, 0, 0]),
        ]
    );
}

#[test]
fn configurable_modules_are_those_with_genesis() {
    let mut fixed = custom();
    fixed.capabilities.genesis = false;
    let runtime = CompositeRuntime::compose(
        vec![fixed, ledger()],
        bindings(),
        Keying::ByIdentity,
    )
    .unwrap();
    assert_eq!(runtime.configurable_modules(), vec![LEDGER]);
    assert_eq!(composed(Keying::ByIdentity).configurable_modules(), vec![LEDGER, CUSTOM]);
}

#[test]
fn library_items_are_reachable_from_the_root() {
    let runtime: mock_runtime::CompositeRuntime = composed(mock_runtime::Keying::ByIdentity);
    let e: Result<mock_runtime::CompositeRuntime, mock_runtime::CompositionError> =
        mock_runtime::CompositeRuntime::compose(vec![ledger(), ledger()], vec![], Keying::ByIdentity);
    assert_eq!(e, Err(CompositionError::DuplicateModule { index: 1, module: LEDGER }));
    assert_eq!(runtime.modules().len(), 2);
    let mut ext: mock_runtime::ExternalitiesContext = mock_runtime::new_test_ext();
    assert_eq!(ext.get(&b":code".to_vec()), None);
    assert_eq!(
        ext.get(&vec![0x6d, 0, 0, 0, 0, 0, 0, 0, 0, b'P', b'a', b'r', b'e', b'n', b't', b'H', b'a', b's', b'h']),
        Some(vec![69; 32])
    );
}
