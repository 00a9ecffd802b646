//! A mock runtime to test the template module in: the bookkeeping module of
//! the framework and the template module, with every parameter bound.
//!
//! The modules, their parameters and the bindings are those of the runtime
//! as it is declared to the framework. The default payload of the
//! bookkeeping module is a stand-in: two entries under this library's own
//! keys, not the genesis that the framework itself writes.
use vstd::prelude::*;
use crate::binding::{Binding, CompositeKind, TypeRef};
use crate::descriptor::{
    distinct_params, param_seen_before, Capabilities, ModuleDescriptor, ModuleId, ParamId,
    ParamSpec,
};
use crate::externalities::ExternalitiesContext;
use crate::genesis::{
    config_ok, effective_payload, genesis_pairs, genesis_state, image_of_first, store_of,
    GenesisConfig, ModuleGenesis,
};
use crate::keys::{distinct_keys, entries_fit, entry_fits, storage_key, StorageEntry};
use crate::runtime::{CompositeRuntime, Keying, RuntimeModel};
use crate::schema::{
    binding_ok, bindings_ok, composable, expected, module_ok, modules_ok, param_bound, targets,
    unit_refused,
};

verus! {

/// The bookkeeping module.
pub const SYSTEM: ModuleId = 0;

/// The module under test.
pub const TEMPLATE_MODULE: ModuleId = 1;

pub const BASE_CALL_FILTER: ParamId = 0;

pub const BLOCK_WEIGHTS: ParamId = 1;

pub const BLOCK_LENGTH: ParamId = 2;

pub const DB_WEIGHT: ParamId = 3;

pub const ORIGIN: ParamId = 4;

pub const CALL: ParamId = 5;

pub const INDEX: ParamId = 6;

pub const BLOCK_NUMBER: ParamId = 7;

pub const HASH: ParamId = 8;

pub const HASHING: ParamId = 9;

pub const ACCOUNT_ID: ParamId = 10;

pub const LOOKUP: ParamId = 11;

pub const HEADER: ParamId = 12;

pub const EVENT: ParamId = 13;

pub const BLOCK_HASH_COUNT: ParamId = 14;

pub const VERSION: ParamId = 15;

pub const NOBLE_INFO: ParamId = 16;

pub const ACCOUNT_DATA: ParamId = 17;

pub const ON_NEW_ACCOUNT: ParamId = 18;

pub const ON_KILLED_ACCOUNT: ParamId = 19;

pub const SYSTEM_WEIGHT_INFO: ParamId = 20;

pub const SS58_PREFIX: ParamId = 21;

/// How many parameters the bookkeeping module declares.
pub const SYSTEM_PARAM_COUNT: u64 = 22;

/// The type `u64`.
pub const TYPE_U64: u64 = 0;

/// The 256-bit hash type.
pub const TYPE_H256: u64 = 1;

/// The Blake2 hasher with 256 bits of output.
pub const TYPE_BLAKE_TWO_256: u64 = 2;

/// The lookup that takes an account identifier for the account itself.
pub const TYPE_IDENTITY_LOOKUP: u64 = 3;

/// The block header used in tests.
pub const TYPE_HEADER: u64 = 4;

/// How many block hashes the bookkeeping module keeps.
pub const BLOCK_HASH_COUNT_VALUE: u64 = 250;

/// The address format of the network.
pub const SS58_PREFIX_VALUE: u64 = 42;

/// Whether the bookkeeping module lets `param` be switched off with `()`.
pub open spec fn spec_system_permits_unit(param: ParamId) -> bool {
    ||| param == BASE_CALL_FILTER
    ||| param == BLOCK_WEIGHTS
    ||| param == BLOCK_LENGTH
    ||| param == DB_WEIGHT
    ||| param == VERSION
    ||| param == ACCOUNT_DATA
    ||| param == ON_NEW_ACCOUNT
    ||| param == ON_KILLED_ACCOUNT
    ||| param == SYSTEM_WEIGHT_INFO
}

/// The type the mock runtime gives to `param` of the bookkeeping module.
pub open spec fn spec_system_type(param: ParamId) -> TypeRef {
    if param == ORIGIN {
        TypeRef::Composite(CompositeKind::Origin)
    } else if param == CALL {
        TypeRef::Composite(CompositeKind::Call)
    } else if param == EVENT {
        TypeRef::Composite(CompositeKind::Event)
    } else if param == NOBLE_INFO {
        TypeRef::Composite(CompositeKind::Metadata)
    } else if param == INDEX || param == BLOCK_NUMBER || param == ACCOUNT_ID {
        TypeRef::Concrete(TYPE_U64)
    } else if param == HASH {
        TypeRef::Concrete(TYPE_H256)
    } else if param == HASHING {
        TypeRef::Concrete(TYPE_BLAKE_TWO_256)
    } else if param == LOOKUP {
        TypeRef::Concrete(TYPE_IDENTITY_LOOKUP)
    } else if param == HEADER {
        TypeRef::Concrete(TYPE_HEADER)
    } else if param == BLOCK_HASH_COUNT {
        TypeRef::Constant(BLOCK_HASH_COUNT_VALUE)
    } else if param == SS58_PREFIX {
        TypeRef::Constant(SS58_PREFIX_VALUE)
    } else {
        TypeRef::Unit
    }
}

/// The item under which the description keeps the parent hash.
///
/// The two defaults declared here stand in for the genesis of the
/// framework's bookkeeping module. They repeat two of the values that module
/// writes, under this library's own keys; the framework's own layout and its
/// remaining entries are not described.
pub open spec fn parent_hash_item() -> Seq<u8> {
    seq![0x50u8, 0x61u8, 0x72u8, 0x65u8, 0x6eu8, 0x74u8, 0x48u8, 0x61u8, 0x73u8, 0x68u8]
}

/// The stand-in for the parent hash of the first block: thirty-two bytes of
/// 69.
pub open spec fn parent_hash_value() -> Seq<u8> {
    Seq::new(32, |i: int| 69u8)
}

/// The item under which the description keeps the mark that reference
/// counts are up to date.
pub open spec fn ref_count_item() -> Seq<u8> {
    seq![
        0x55u8, 0x70u8, 0x67u8, 0x72u8, 0x61u8, 0x64u8, 0x65u8, 0x64u8,
        0x54u8, 0x6fu8, 0x55u8, 0x33u8, 0x32u8, 0x52u8, 0x65u8, 0x66u8,
        0x43u8, 0x6fu8, 0x75u8, 0x6eu8, 0x74u8,
    ]
}

/// The stand-in for that mark: the one byte of `true`.
pub open spec fn ref_count_value() -> Seq<u8> {
    seq![1u8]
}

/// What the mock runtime's storage holds at genesis: the two stand-in
/// defaults of the bookkeeping module under its prefix, and nothing else.
pub open spec fn test_genesis_state() -> Map<Seq<u8>, Seq<u8>> {
    Map::empty().insert(storage_key(SYSTEM, parent_hash_item()), parent_hash_value()).insert(
        storage_key(SYSTEM, ref_count_item()),
        ref_count_value(),
    )
}

/// Whether the bookkeeping module lets `param` be switched off with `()`.
pub fn system_permits_unit(param: ParamId) -> (permitted: bool)
    ensures
        permitted == spec_system_permits_unit(param),
{
    param == BASE_CALL_FILTER || param == BLOCK_WEIGHTS || param == BLOCK_LENGTH || param
        == DB_WEIGHT || param == VERSION || param == ACCOUNT_DATA || param == ON_NEW_ACCOUNT
        || param == ON_KILLED_ACCOUNT || param == SYSTEM_WEIGHT_INFO
}

/// The type the mock runtime gives to `param` of the bookkeeping module.
pub fn system_type(param: ParamId) -> (ty: TypeRef)
    ensures
        ty == spec_system_type(param),
{
    if param == ORIGIN {
        TypeRef::Composite(CompositeKind::Origin)
    } else if param == CALL {
        TypeRef::Composite(CompositeKind::Call)
    } else if param == EVENT {
        TypeRef::Composite(CompositeKind::Event)
    } else if param == NOBLE_INFO {
        TypeRef::Composite(CompositeKind::Metadata)
    } else if param == INDEX || param == BLOCK_NUMBER || param == ACCOUNT_ID {
        TypeRef::Concrete(TYPE_U64)
    } else if param == HASH {
        TypeRef::Concrete(TYPE_H256)
    } else if param == HASHING {
        TypeRef::Concrete(TYPE_BLAKE_TWO_256)
    } else if param == LOOKUP {
        TypeRef::Concrete(TYPE_IDENTITY_LOOKUP)
    } else if param == HEADER {
        TypeRef::Concrete(TYPE_HEADER)
    } else if param == BLOCK_HASH_COUNT {
        TypeRef::Constant(BLOCK_HASH_COUNT_VALUE)
    } else if param == SS58_PREFIX {
        TypeRef::Constant(SS58_PREFIX_VALUE)
    } else {
        TypeRef::Unit
    }
}

/// Whether `m` describes the bookkeeping module.
pub open spec fn is_system_module(m: ModuleDescriptor) -> bool {
    &&& m.id == SYSTEM
    &&& m.capabilities == (Capabilities { call: true, event: true, storage: true, genesis: true })
    &&& m.params@.len() == SYSTEM_PARAM_COUNT
    &&& forall|j: int|
        0 <= j < SYSTEM_PARAM_COUNT ==> (#[trigger] m.params@[j]) == (ParamSpec {
            id: j as u64,
            unit_allowed: spec_system_permits_unit(j as u64),
        })
    &&& m.default_genesis@.len() == 2
    &&& m.default_genesis@[0]@ == (parent_hash_item(), parent_hash_value())
    &&& m.default_genesis@[1]@ == (ref_count_item(), ref_count_value())
}

/// Whether `m` describes the template module.
pub open spec fn is_template_module(m: ModuleDescriptor) -> bool {
    &&& m.id == TEMPLATE_MODULE
    &&& m.capabilities == (Capabilities { call: true, event: true, storage: true, genesis: false })
    &&& m.params@.len() == 1
    &&& m.params@[0] == (ParamSpec { id: EVENT, unit_allowed: false })
    &&& m.default_genesis@.len() == 0
}

/// Whether `bindings` is the binding table of the mock runtime.
pub open spec fn is_test_bindings(bindings: Seq<Binding>) -> bool {
    &&& bindings.len() == SYSTEM_PARAM_COUNT + 1
    &&& forall|k: int|
        0 <= k < SYSTEM_PARAM_COUNT ==> (#[trigger] bindings[k]) == (Binding {
            module: SYSTEM,
            param: k as u64,
            ty: spec_system_type(k as u64),
        })
    &&& bindings[SYSTEM_PARAM_COUNT as int] == (Binding {
        module: TEMPLATE_MODULE,
        param: EVENT,
        ty: TypeRef::Composite(CompositeKind::Event),
    })
}

/// The descriptor of the bookkeeping module: it accepts calls, emits
/// events, keeps storage and takes genesis configuration. Its default
/// payload is a stand-in of two entries.
pub fn system_module() -> (m: ModuleDescriptor)
    ensures
        is_system_module(m),
{
    let mut params: Vec<ParamSpec> = Vec::new();
    let mut id: u64 = 0;
    while id < SYSTEM_PARAM_COUNT
        invariant
            id <= SYSTEM_PARAM_COUNT,
            params@.len() == id,
            forall|j: int|
                0 <= j < id ==> (#[trigger] params@[j]) == (ParamSpec {
                    id: j as u64,
                    unit_allowed: spec_system_permits_unit(j as u64),
                }),
        decreases SYSTEM_PARAM_COUNT - id,
    {
        params.push(ParamSpec { id, unit_allowed: system_permits_unit(id) });
        id += 1;
    }
    let parent_hash_key: Vec<u8> = vec![
        0x50u8, 0x61u8, 0x72u8, 0x65u8, 0x6eu8, 0x74u8, 0x48u8, 0x61u8, 0x73u8, 0x68u8,
    ];
    assert(parent_hash_key@ =~= parent_hash_item());
    let mut parent_hash: Vec<u8> = Vec::new();
    while parent_hash.len() < 32
        invariant
            parent_hash@.len() <= 32,
            forall|i: int| 0 <= i < parent_hash@.len() ==> parent_hash@[i] == 69u8,
        decreases 32 - parent_hash@.len(),
    {
        parent_hash.push(69u8);
    }
    assert(parent_hash@ =~= parent_hash_value());
    let ref_count_key: Vec<u8> = vec![
        0x55u8, 0x70u8, 0x67u8, 0x72u8, 0x61u8, 0x64u8, 0x65u8, 0x64u8,
        0x54u8, 0x6fu8, 0x55u8, 0x33u8, 0x32u8, 0x52u8, 0x65u8, 0x66u8,
        0x43u8, 0x6fu8, 0x75u8, 0x6eu8, 0x74u8,
    ];
    assert(ref_count_key@ =~= ref_count_item());
    let ref_count: Vec<u8> = vec![1u8];
    assert(ref_count@ =~= ref_count_value());
    let mut default_genesis: Vec<StorageEntry> = Vec::new();
    default_genesis.push(StorageEntry { key: parent_hash_key, value: parent_hash });
    default_genesis.push(StorageEntry { key: ref_count_key, value: ref_count });
    ModuleDescriptor {
        id: SYSTEM,
        capabilities: Capabilities { call: true, event: true, storage: true, genesis: true },
        params,
        default_genesis,
    }
}

/// The descriptor of the template module: it accepts calls, emits events
/// and keeps storage, and starts empty.
pub fn template_module() -> (m: ModuleDescriptor)
    ensures
        is_template_module(m),
{
    let mut params: Vec<ParamSpec> = Vec::new();
    params.push(ParamSpec { id: EVENT, unit_allowed: false });
    ModuleDescriptor {
        id: TEMPLATE_MODULE,
        capabilities: Capabilities { call: true, event: true, storage: true, genesis: false },
        params,
        default_genesis: Vec::new(),
    }
}

/// The binding table of the mock runtime: every parameter of the
/// bookkeeping module, then the event type of the template module.
pub fn test_bindings() -> (bindings: Vec<Binding>)
    ensures
        is_test_bindings(bindings@),
{
    let mut bindings: Vec<Binding> = Vec::new();
    let mut param: u64 = 0;
    while param < SYSTEM_PARAM_COUNT
        invariant
            param <= SYSTEM_PARAM_COUNT,
            bindings@.len() == param,
            forall|k: int|
                0 <= k < param ==> (#[trigger] bindings@[k]) == (Binding {
                    module: SYSTEM,
                    param: k as u64,
                    ty: spec_system_type(k as u64),
                }),
        decreases SYSTEM_PARAM_COUNT - param,
    {
        bindings.push(Binding { module: SYSTEM, param, ty: system_type(param) });
        param += 1;
    }
    bindings.push(
        Binding {
            module: TEMPLATE_MODULE,
            param: EVENT,
            ty: TypeRef::Composite(CompositeKind::Event),
        },
    );
    bindings
}

/// The modules of the mock runtime and its binding table describe a
/// runtime.
pub proof fn lemma_test_runtime_composes(modules: Seq<ModuleDescriptor>, bindings: Seq<Binding>)
    requires
        modules.len() == 2,
        is_system_module(modules[0]),
        is_template_module(modules[1]),
        is_test_bindings(bindings),
    ensures
        composable(modules, bindings),
{
    let system = modules[0];
    let template = modules[1];
    assert(distinct_params(system.params@)) by {
        assert forall|j: int| 0 <= j < system.params@.len() implies !#[trigger] param_seen_before(
            system.params@,
            j,
        ) by {
            assert(system.params@[j].id == j as u64);
        }
    }
    assert(distinct_keys(system.default_genesis@)) by {
        assert(system.default_genesis@[0].key@.len() != system.default_genesis@[1].key@.len());
    }
    assert(entries_fit(system.default_genesis@)) by {
        assert(entry_fits(system.default_genesis@, 0));
        assert(entry_fits(system.default_genesis@, 1));
    }
    assert(module_ok(modules, 0));
    assert(module_ok(modules, 1));
    assert(modules_ok(modules));
    assert forall|k: int| 0 <= k < bindings.len() implies #[trigger] binding_ok(
        modules,
        bindings,
        k,
    ) by {
        let b = bindings[k];
        if k < SYSTEM_PARAM_COUNT {
            assert(system.params@[k].id == k as u64);
            assert(targets(b, modules, 0, k));
        } else {
            assert(targets(b, modules, 1, 0));
        }
        assert(expected(modules, b));
        assert(!unit_refused(modules, b)) by {
            assert forall|i: int, j: int| #[trigger] targets(b, modules, i, j) implies b.ty
                != TypeRef::Unit || modules[i].params@[j].unit_allowed by {
                if i == 0 {
                    assert(system.params@[j].id == j as u64);
                }
            }
        }
    }
    assert(bindings_ok(modules, bindings));
    assert forall|i: int, j: int|
        0 <= i < modules.len() && 0 <= j < modules[i].params@.len() implies #[trigger] param_bound(
        modules,
        bindings,
        i,
        j,
    ) by {
        if i == 0 {
            assert(system.params@[j].id == j as u64);
            assert(targets(bindings[j], modules, i, j));
        } else {
            assert(targets(bindings[SYSTEM_PARAM_COUNT as int], modules, i, j));
        }
    }
}

/// The modules of the mock runtime, the bookkeeping module first.
pub fn test_modules() -> (modules: Vec<ModuleDescriptor>)
    ensures
        modules@.len() == 2,
        is_system_module(modules@[0]),
        is_template_module(modules@[1]),
{
    let mut modules: Vec<ModuleDescriptor> = Vec::new();
    modules.push(system_module());
    modules.push(template_module());
    modules
}

/// The mock runtime, with namespaces taken from module identity.
pub fn test_runtime() -> (runtime: CompositeRuntime)
    ensures
        runtime@.wf(),
        runtime@.keying == Keying::ByIdentity,
        runtime@.modules.len() == 2,
        is_system_module(runtime@.modules[0]),
        is_template_module(runtime@.modules[1]),
        is_test_bindings(runtime@.bindings),
{
    let modules = test_modules();
    let bindings = test_bindings();
    proof {
        lemma_test_runtime_composes(modules@, bindings@);
    }
    CompositeRuntime::compose(modules, bindings, Keying::ByIdentity).unwrap()
}

/// With every module at its default, the mock runtime starts from the
/// stand-in defaults of the bookkeeping module alone.
pub proof fn lemma_test_genesis_state(runtime: RuntimeModel)
    requires
        runtime.keying == Keying::ByIdentity,
        runtime.modules.len() == 2,
        is_system_module(runtime.modules[0]),
        is_template_module(runtime.modules[1]),
    ensures
        config_ok(runtime, Seq::empty()),
        genesis_state(runtime, Seq::empty()) == test_genesis_state(),
{
    let none = Seq::<ModuleGenesis>::empty();
    let first = (storage_key(SYSTEM, parent_hash_item()), parent_hash_value());
    let second = (storage_key(SYSTEM, ref_count_item()), ref_count_value());
    assert(effective_payload(runtime, none, 0) == runtime.modules[0].default_genesis@);
    assert(effective_payload(runtime, none, 1) == runtime.modules[1].default_genesis@);
    reveal_with_fuel(image_of_first, 3);
    let pairs = genesis_pairs(runtime, none);
    assert(pairs =~= seq![first, second]);
    reveal_with_fuel(store_of, 3);
    assert(pairs.drop_last() =~= seq![first]);
    assert(pairs.drop_last().drop_last() =~= Seq::empty());
    assert(store_of(pairs) == Map::<Seq<u8>, Seq<u8>>::empty().insert(first.0, first.1).insert(
        second.0,
        second.1,
    ));
}

/// Builds genesis storage according to the mock runtime, every module at
/// its default, and wraps it for execution.
pub fn new_test_ext() -> (ext: ExternalitiesContext)
    ensures
        ext.state() == test_genesis_state(),
{
    let runtime = test_runtime();
    let config = GenesisConfig::default();
    proof {
        assert(config.payloads@ =~= Seq::empty());
        lemma_test_genesis_state(runtime@);
    }
    config.build_externalities(&runtime).unwrap()
}

} // verus!
