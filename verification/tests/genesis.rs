use mock_runtime::binding::{Binding, TypeRef};
use mock_runtime::descriptor::{Capabilities, ModuleDescriptor, ParamSpec};
use mock_runtime::genesis::{GenesisConfig, GenesisDefect, GenesisError, ModuleGenesis};
use mock_runtime::keys::{
    bytes_eq, child_storage_prefix_bytes, code_key_bytes, copy_bytes, first_oversized_entry,
    first_repeated_key, has_child_storage_prefix, heap_pages_key_bytes, make_storage_key,
    StorageEntry, MAX_ITEM_LEN, MAX_KEY_LEN, MAX_VALUE_LEN, PARTITION_MARKER, PREFIX_LEN,
};
use mock_runtime::runtime::{CompositeRuntime, Keying};

const BOOKKEEPING: u64 = 1;
const CUSTOM: u64 = 2;
const PLAIN: u64 = 3;

fn entry(key: &[u8], value: &[u8]) -> StorageEntry {
    StorageEntry { key: key.to_vec(), value: value.to_vec() }
}

fn key_of(module: u64, item: &[u8]) -> Vec<u8> {
    let mut key = vec![0x6d];
    key.extend_from_slice(&module.to_le_bytes());
    key.extend_from_slice(item);
    key
}

fn runtime() -> CompositeRuntime {
    let bookkeeping = ModuleDescriptor {
        id: BOOKKEEPING,
        capabilities: Capabilities { call: true, event: true, storage: true, genesis: true },
        params: vec![ParamSpec { id: 0, unit_allowed: true }],
        default_genesis: vec![entry(b"number", &[0, 0]), entry(b"parent", &[69])],
    };
    let custom = ModuleDescriptor {
        id: CUSTOM,
        capabilities: Capabilities { call: true, event: false, storage: true, genesis: true },
        params: vec![],
        default_genesis: vec![],
    };
    let plain = ModuleDescriptor {
        id: PLAIN,
        capabilities: Capabilities { call: true, event: false, storage: true, genesis: false },
        params: vec![],
        default_genesis: vec![],
    };
    CompositeRuntime::compose(
        vec![bookkeeping, custom, plain],
        vec![Binding { module: BOOKKEEPING, param: 0, ty: TypeRef::Unit }],
        Keying::ByIdentity,
    )
    .unwrap()
}

fn build_error(config: &GenesisConfig) -> GenesisError {
    match config.build(&runtime()) {
        Ok(_) => panic!("the build was expected to fail"),
        Err(e) => e,
    }
}

#[test]
fn default_config_is_empty() {
    assert_eq!(GenesisConfig::default().payloads.len(), 0);
    assert_eq!(GenesisConfig::new(), GenesisConfig::default());
}

#[test]
fn default_genesis_builds_module_defaults() {
    let image = GenesisConfig::default().build(&runtime()).unwrap();
    assert_eq!(image.len(), 2);
    assert_eq!(
        image.entries(),
        &vec![
            StorageEntry { key: key_of(BOOKKEEPING, b"number"), value: vec![0, 0] },
            StorageEntry { key: key_of(BOOKKEEPING, b"parent"), value: vec![69] },
        ]
    );
    assert_eq!(image.get(&key_of(BOOKKEEPING, b"number")), Some(vec![0, 0]));
    assert_eq!(image.get(&key_of(BOOKKEEPING, b"parent")), Some(vec![69]));
    assert_eq!(image.get(&key_of(CUSTOM, b"number")), None);
    assert_eq!(image.get(&b"number".to_vec()), None);
    assert_eq!(GenesisConfig::default().first_defect(&runtime()), None);
}

#[test]
fn default_genesis_of_modules_without_defaults_is_empty() {
    let lone = ModuleDescriptor {
        id: CUSTOM,
        capabilities: Capabilities { call: false, event: false, storage: true, genesis: true },
        params: vec![],
        default_genesis: vec![],
    };
    let runtime = CompositeRuntime::compose(vec![lone], vec![], Keying::ByIdentity).unwrap();
    let image = GenesisConfig::default().build(&runtime).unwrap();
    assert_eq!(image.len(), 0);
    assert!(image.entries().is_empty());
}

#[test]
fn supplied_payload_replaces_the_default() {
    let config = GenesisConfig {
        payloads: vec![
            ModuleGenesis { module: CUSTOM, entries: vec![entry(b"owner", &[7]), entry(b"", &[])] },
            ModuleGenesis { module: BOOKKEEPING, entries: vec![entry(b"number", &[5, 0])] },
        ],
    };
    let image = config.build(&runtime()).unwrap();
    assert_eq!(
        image.entries(),
        &vec![
            StorageEntry { key: key_of(BOOKKEEPING, b"number"), value: vec![5, 0] },
            StorageEntry { key: key_of(CUSTOM, b"owner"), value: vec![7] },
            StorageEntry { key: key_of(CUSTOM, b""), value: vec![] },
        ]
    );
    assert_eq!(image.get(&key_of(BOOKKEEPING, b"parent")), None);
    assert_eq!(image.get(&key_of(CUSTOM, b"")), Some(vec![]));
}

#[test]
fn partitions_follow_the_keying() {
    let bookkeeping = ModuleDescriptor {
        id: 9,
        capabilities: Capabilities { call: false, event: false, storage: true, genesis: true },
        params: vec![],
        default_genesis: vec![entry(b"k", &[1])],
    };
    let runtime = CompositeRuntime::compose(vec![bookkeeping], vec![], Keying::ByPosition).unwrap();
    let image = GenesisConfig::default().build(&runtime).unwrap();
    assert_eq!(image.get(&key_of(0, b"k")), Some(vec![1]));
    assert_eq!(image.get(&key_of(9, b"k")), None);
}

#[test]
fn same_item_in_two_modules_does_not_collide() {
    let config = GenesisConfig {
        payloads: vec![ModuleGenesis { module: CUSTOM, entries: vec![entry(b"number", &[9])] }],
    };
    let image = config.build(&runtime()).unwrap();
    assert_eq!(image.len(), 3);
    assert_eq!(image.get(&key_of(BOOKKEEPING, b"number")), Some(vec![0, 0]));
    assert_eq!(image.get(&key_of(CUSTOM, b"number")), Some(vec![9]));
}

#[test]
fn duplicate_key_fails_the_build_naming_the_module() {
    let config = GenesisConfig {
        payloads: vec![
            ModuleGenesis { module: BOOKKEEPING, entries: vec![entry(b"number", &[1])] },
            ModuleGenesis {
                module: CUSTOM,
                entries: vec![entry(b"a", &[1]), entry(b"b", &[2]), entry(b"a", &[3]), entry(b"b", &[4])],
            },
        ],
    };
    assert_eq!(
        build_error(&config),
        GenesisError { index: 1, module: CUSTOM, defect: GenesisDefect::DuplicateKey { entry: 2 } }
    );
    assert_eq!(config.first_defect(&runtime()), Some(build_error(&config)));
}

#[test]
fn payload_for_an_unknown_module_fails_the_build() {
    let config = GenesisConfig { payloads: vec![ModuleGenesis { module: 44, entries: vec![] }] };
    assert_eq!(
        build_error(&config),
        GenesisError { index: 0, module: 44, defect: GenesisDefect::UnknownModule }
    );
}

#[test]
fn payload_for_a_module_without_genesis_fails_the_build() {
    let config = GenesisConfig {
        payloads: vec![
            ModuleGenesis { module: CUSTOM, entries: vec![] },
            ModuleGenesis { module: PLAIN, entries: vec![entry(b"a", &[1])] },
        ],
    };
    assert_eq!(
        build_error(&config),
        GenesisError { index: 1, module: PLAIN, defect: GenesisDefect::NotConfigurable }
    );
}

#[test]
fn second_payload_for_a_module_fails_the_build() {
    let config = GenesisConfig {
        payloads: vec![
            ModuleGenesis { module: CUSTOM, entries: vec![entry(b"a", &[1])] },
            ModuleGenesis { module: BOOKKEEPING, entries: vec![] },
            ModuleGenesis { module: CUSTOM, entries: vec![entry(b"a", &[1])] },
        ],
    };
    assert_eq!(
        build_error(&config),
        GenesisError { index: 2, module: CUSTOM, defect: GenesisDefect::SuppliedTwice }
    );
}

#[test]
fn first_invalid_payload_is_reported() {
    let config = GenesisConfig {
        payloads: vec![
            ModuleGenesis { module: CUSTOM, entries: vec![entry(b"a", &[1]), entry(b"a", &[1])] },
            ModuleGenesis { module: 44, entries: vec![] },
        ],
    };
    assert_eq!(
        build_error(&config),
        GenesisError { index: 0, module: CUSTOM, defect: GenesisDefect::DuplicateKey { entry: 1 } }
    );
}

#[test]
fn building_twice_gives_the_same_image() {
    let config = GenesisConfig {
        payloads: vec![ModuleGenesis { module: CUSTOM, entries: vec![entry(b"owner", &[7])] }],
    };
    let first = config.build(&runtime()).unwrap();
    let second = config.build(&runtime()).unwrap();
    assert_eq!(first.entries(), second.entries());
    assert_eq!(first.into_entries(), second.into_entries());
}

#[test]
fn storage_keys_are_marker_namespace_item() {
    assert_eq!(PARTITION_MARKER, b'm');
    assert_eq!(
        make_storage_key(0x0807_0605_0403_0201, &vec![0xaa, 0xbb]),
        vec![0x6d, 1, 2, 3, 4, 5, 6, 7, 8, 0xaa, 0xbb]
    );
    assert_eq!(make_storage_key(0, &vec![]), vec![0x6d, 0, 0, 0, 0, 0, 0, 0, 0]);
    assert_eq!(make_storage_key(u64::MAX, &vec![]), vec![0x6d, 255, 255, 255, 255, 255, 255, 255, 255]);
}

#[test]
fn byte_strings_are_compared_and_copied() {
    assert!(bytes_eq(&vec![], &vec![]));
    assert!(bytes_eq(&vec![1, 2], &vec![1, 2]));
    assert!(!bytes_eq(&vec![1, 2], &vec![1, 3]));
    assert!(!bytes_eq(&vec![1, 2], &vec![1, 2, 3]));
    assert_eq!(copy_bytes(&vec![4, 5, 6]), vec![4, 5, 6]);
    assert_eq!(copy_bytes(&vec![]), Vec::<u8>::new());
}

#[test]
fn child_storage_keys_are_recognised() {
    assert!(has_child_storage_prefix(&b":child_storage:".to_vec()));
    assert!(has_child_storage_prefix(&b":child_storage:default:abc".to_vec()));
    assert!(!has_child_storage_prefix(&b":child_storage".to_vec()));
    assert!(!has_child_storage_prefix(&b":child_storagE:x".to_vec()));
    assert!(!has_child_storage_prefix(&b":code".to_vec()));
    assert!(!has_child_storage_prefix(&vec![]));
    assert_eq!(child_storage_prefix_bytes(), b":child_storage:".to_vec());
}

#[test]
fn repeated_keys_are_found() {
    let entries = vec![entry(b"a", &[1]), entry(b"b", &[1]), entry(b"c", &[1]), entry(b"b", &[2]), entry(b"a", &[2])];
    assert_eq!(first_repeated_key(&entries), Some(3));
    assert_eq!(first_repeated_key(&entries[..3].to_vec()), None);
    assert_eq!(first_repeated_key(&vec![]), None);
    assert_eq!(first_repeated_key(&vec![entry(b"", &[]), entry(b"", &[1])]), Some(1));
}

#[test]
fn payloads_are_added_and_looked_up() {
    let config = GenesisConfig::new()
        .with_payload(CUSTOM, vec![entry(b"owner", &[7])])
        .with_payload(BOOKKEEPING, vec![])
        .with_payload(CUSTOM, vec![entry(b"other", &[8])]);
    assert_eq!(
        config,
        GenesisConfig {
            payloads: vec![
                ModuleGenesis { module: CUSTOM, entries: vec![entry(b"owner", &[7])] },
                ModuleGenesis { module: BOOKKEEPING, entries: vec![] },
                ModuleGenesis { module: CUSTOM, entries: vec![entry(b"other", &[8])] },
            ],
        }
    );
    assert_eq!(config.payload_for(CUSTOM), Some(&vec![entry(b"owner", &[7])]));
    assert_eq!(config.payload_for(BOOKKEEPING), Some(&vec![]));
    assert_eq!(config.payload_for(PLAIN), None);
}

#[test]
fn images_of_one_configuration_are_equal() {
    let config = GenesisConfig::new().with_payload(CUSTOM, vec![entry(b"owner", &[7])]);
    assert_eq!(config.build(&runtime()), config.build(&runtime()));
    assert_ne!(config.build(&runtime()), GenesisConfig::new().build(&runtime()));
}

#[test]
fn key_too_long_fails_the_build_naming_the_module() {
    let config = GenesisConfig {
        payloads: vec![
            ModuleGenesis { module: BOOKKEEPING, entries: vec![entry(&[1; 32758], &[1])] },
            ModuleGenesis {
                module: CUSTOM,
                entries: vec![entry(b"a", &[1]), entry(&[2; 32759], &[2]), entry(b"a", &[3])],
            },
        ],
    };
    assert_eq!(
        build_error(&config),
        GenesisError { index: 1, module: CUSTOM, defect: GenesisDefect::KeyTooLong { entry: 1 } }
    );
}

#[test]
fn longest_key_is_laid_out() {
    let item = vec![9u8; MAX_ITEM_LEN];
    let config = GenesisConfig::new().with_payload(CUSTOM, vec![entry(&item, &[4, 2])]);
    let image = config.build(&runtime()).unwrap();
    let key = key_of(CUSTOM, &item);
    assert_eq!(key.len(), MAX_KEY_LEN);
    assert_eq!(image.get(&key), Some(vec![4, 2]));
}

#[test]
fn key_lengths_add_up() {
    assert_eq!(PREFIX_LEN, 9);
    assert_eq!(MAX_KEY_LEN, 32767);
    assert_eq!(PREFIX_LEN + MAX_ITEM_LEN, MAX_KEY_LEN);
    assert_eq!(2 * MAX_KEY_LEN, 65534);
    assert_eq!(make_storage_key(1, &vec![0; MAX_ITEM_LEN]).len(), MAX_KEY_LEN);
}

#[test]
fn long_keys_are_found() {
    let entries = vec![entry(b"a", &[]), entry(&[0; 32758], &[]), entry(&[0; 32759], &[]), entry(&[0; 40000], &[])];
    assert_eq!(first_oversized_entry(&entries), Some(2));
    assert_eq!(first_oversized_entry(&entries[..2].to_vec()), None);
    assert_eq!(first_oversized_entry(&vec![]), None);
}

#[test]
fn values_up_to_the_limit_are_not_oversized() {
    assert_eq!(MAX_VALUE_LEN as u64, u32::MAX as u64);
    let entries = vec![entry(b"a", &[1]), entry(b"b", &vec![0u8; 1 << 20]), entry(b"c", &[])];
    assert_eq!(first_oversized_entry(&entries), None);
    let config = GenesisConfig::new().with_payload(CUSTOM, entries);
    let image = config.build(&runtime()).unwrap();
    assert_eq!(image.get(&key_of(CUSTOM, b"b")).map(|v| v.len()), Some(1 << 20));
}

#[test]
fn engine_keys_are_spelled_out() {
    assert_eq!(heap_pages_key_bytes(), b":heappages".to_vec());
    assert_eq!(code_key_bytes(), b":code".to_vec());
}
