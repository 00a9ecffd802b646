//! Genesis: from a declarative configuration to the initial storage.
//!
//! A configuration holds at most one payload per module: the key-value pairs
//! the module starts with. A module the configuration says nothing about
//! starts with the default its descriptor declares. Building lays the
//! effective payloads out in the flat key space, each under the prefix of
//! its module, in module order.
use vstd::prelude::*;
use crate::descriptor::ModuleId;
use crate::keys::{
    bytes_eq, copy_bytes, distinct_keys, entries_fit, entry_fits, first_oversized_entry,
    first_repeated_key, key_fits, key_seen_before, lemma_storage_key_injective,
    lemma_storage_key_not_reserved, make_storage_key, pairs_of, storage_key, StorageEntry,
    MAX_ITEM_LEN, MAX_KEY_LEN, MAX_VALUE_LEN, PARTITION_MARKER,
};
use crate::schema::module_ok;
use crate::runtime::{CompositeRuntime, RuntimeModel};

verus! {

/// The genesis payload that a configuration supplies for one module.
#[derive(Clone, Debug, PartialEq, Eq)]
pub struct ModuleGenesis {
    pub module: ModuleId,
    pub entries: Vec<StorageEntry>,
}

/// The unified genesis configuration: the payloads that replace module
/// defaults.
#[derive(Clone, Debug, PartialEq, Eq)]
pub struct GenesisConfig {
    pub payloads: Vec<ModuleGenesis>,
}

/// What is wrong with a module's genesis payload.
#[derive(Clone, Copy, Debug, PartialEq, Eq, Structural)]
pub enum GenesisDefect {
    /// The runtime has no such module.
    UnknownModule,
    /// The module does not take genesis configuration.
    NotConfigurable,
    /// An earlier payload already configures the module.
    SuppliedTwice,
    /// The key of the entry at `entry` is longer than a stored key may be.
    KeyTooLong { entry: usize },
    /// The value of the entry at `entry` is longer than a stored value may
    /// be.
    ValueTooLong { entry: usize },
    /// The entry at `entry` repeats the key of an earlier entry.
    DuplicateKey { entry: usize },
}

/// A failed genesis build: the payload at `index`, meant for `module`, is
/// invalid.
#[derive(Clone, Copy, Debug, PartialEq, Eq, Structural)]
pub struct GenesisError {
    pub index: usize,
    pub module: ModuleId,
    pub defect: GenesisDefect,
}

/// Whether payload `p` configures a module that an earlier payload
/// configures too.
pub open spec fn payload_seen_before(payloads: Seq<ModuleGenesis>, p: int) -> bool {
    exists|q: int| 0 <= q < p && (#[trigger] payloads[q]).module == payloads[p].module
}

/// Whether payload `p` is valid: it is the only payload of a module of the
/// runtime that takes genesis configuration, none of its keys or values is
/// too long to be stored, and no key occurs twice.
pub open spec fn payload_ok(runtime: RuntimeModel, payloads: Seq<ModuleGenesis>, p: int) -> bool {
    &&& runtime.contains(payloads[p].module)
    &&& runtime.descriptor(payloads[p].module).capabilities.genesis
    &&& !payload_seen_before(payloads, p)
    &&& entries_fit(payloads[p].entries@)
    &&& distinct_keys(payloads[p].entries@)
}

/// Whether every payload of a configuration is valid.
pub open spec fn config_ok(runtime: RuntimeModel, payloads: Seq<ModuleGenesis>) -> bool {
    forall|p: int| 0 <= p < payloads.len() ==> #[trigger] payload_ok(runtime, payloads, p)
}

impl GenesisError {
    /// Whether `self` is the first defect of a configuration: every payload
    /// before the one it names is valid, and that one has the defect it
    /// names and none that is checked before it.
    pub open spec fn is_first_defect_of(
        self,
        runtime: RuntimeModel,
        payloads: Seq<ModuleGenesis>,
    ) -> bool {
        let p = self.index as int;
        &&& p < payloads.len()
        &&& forall|q: int| 0 <= q < p ==> #[trigger] payload_ok(runtime, payloads, q)
        &&& self.module == payloads[p].module
        &&& match self.defect {
            GenesisDefect::UnknownModule => !runtime.contains(self.module),
            GenesisDefect::NotConfigurable => {
                &&& runtime.contains(self.module)
                &&& !runtime.descriptor(self.module).capabilities.genesis
            },
            GenesisDefect::SuppliedTwice => {
                &&& runtime.contains(self.module)
                &&& runtime.descriptor(self.module).capabilities.genesis
                &&& payload_seen_before(payloads, p)
            },
            GenesisDefect::KeyTooLong { entry } => {
                &&& runtime.contains(self.module)
                &&& runtime.descriptor(self.module).capabilities.genesis
                &&& !payload_seen_before(payloads, p)
                &&& entry < payloads[p].entries@.len()
                &&& forall|j: int| 0 <= j < entry ==> #[trigger] entry_fits(payloads[p].entries@, j)
                &&& !key_fits(payloads[p].entries@, entry as int)
            },
            GenesisDefect::ValueTooLong { entry } => {
                &&& runtime.contains(self.module)
                &&& runtime.descriptor(self.module).capabilities.genesis
                &&& !payload_seen_before(payloads, p)
                &&& entry < payloads[p].entries@.len()
                &&& forall|j: int| 0 <= j < entry ==> #[trigger] entry_fits(payloads[p].entries@, j)
                &&& key_fits(payloads[p].entries@, entry as int)
                &&& !entry_fits(payloads[p].entries@, entry as int)
            },
            GenesisDefect::DuplicateKey { entry } => {
                &&& runtime.contains(self.module)
                &&& runtime.descriptor(self.module).capabilities.genesis
                &&& !payload_seen_before(payloads, p)
                &&& entries_fit(payloads[p].entries@)
                &&& entry < payloads[p].entries@.len()
                &&& key_seen_before(payloads[p].entries@, entry as int)
                &&& forall|j: int|
                    0 <= j < entry ==> !#[trigger] key_seen_before(payloads[p].entries@, j)
            },
        }
    }
}

/// Whether a configuration supplies a payload for `module`.
pub open spec fn supplied(payloads: Seq<ModuleGenesis>, module: ModuleId) -> bool {
    exists|p: int| 0 <= p < payloads.len() && (#[trigger] payloads[p]).module == module
}

/// The position of the payload that a configuration supplies for `module`.
pub open spec fn supplied_at(payloads: Seq<ModuleGenesis>, module: ModuleId) -> int
    recommends
        supplied(payloads, module),
{
    choose|p: int| 0 <= p < payloads.len() && (#[trigger] payloads[p]).module == module
}

/// The payload that the module at position `i` starts from: the one the
/// configuration supplies, or else the module's declared default.
pub open spec fn effective_payload(
    runtime: RuntimeModel,
    payloads: Seq<ModuleGenesis>,
    i: int,
) -> Seq<StorageEntry> {
    let module = runtime.modules[i].id;
    if supplied(payloads, module) {
        payloads[supplied_at(payloads, module)].entries@
    } else {
        runtime.modules[i].default_genesis@
    }
}

/// A payload laid out in the flat key space under the prefix of
/// `namespace`.
pub open spec fn partition(namespace: u64, payload: Seq<StorageEntry>) -> Seq<(Seq<u8>, Seq<u8>)> {
    Seq::new(payload.len(), |j: int| (storage_key(namespace, payload[j].key@), payload[j].value@))
}

/// The partitions of the first `n` modules, one after the other.
pub open spec fn image_of_first(runtime: RuntimeModel, payloads: Seq<ModuleGenesis>, n: nat) -> Seq<
    (Seq<u8>, Seq<u8>),
>
    decreases n,
{
    if n == 0 {
        Seq::empty()
    } else {
        image_of_first(runtime, payloads, (n - 1) as nat) + partition(
            runtime.namespace(n - 1),
            effective_payload(runtime, payloads, n - 1),
        )
    }
}

/// The key-value pairs of the genesis image, in module order.
pub open spec fn genesis_pairs(runtime: RuntimeModel, payloads: Seq<ModuleGenesis>) -> Seq<
    (Seq<u8>, Seq<u8>),
> {
    image_of_first(runtime, payloads, runtime.modules.len())
}

/// The store that a list of key-value pairs stands for. Where a key occurs
/// twice, the later pair counts.
pub open spec fn store_of(pairs: Seq<(Seq<u8>, Seq<u8>)>) -> Map<Seq<u8>, Seq<u8>>
    decreases pairs.len(),
{
    if pairs.len() == 0 {
        Map::empty()
    } else {
        store_of(pairs.drop_last()).insert(pairs.last().0, pairs.last().1)
    }
}

/// The state at height zero of `runtime` under a configuration.
pub open spec fn genesis_state(runtime: RuntimeModel, payloads: Seq<ModuleGenesis>) -> Map<
    Seq<u8>,
    Seq<u8>,
> {
    store_of(genesis_pairs(runtime, payloads))
}

/// Whether every entry has a partition key and can be stored: neither its
/// key nor its value is too long.
pub open spec fn all_partition_keys(entries: Seq<StorageEntry>) -> bool {
    forall|x: int|
        0 <= x < entries.len() ==> {
            &&& 0 < (#[trigger] entries[x]).key@.len() <= MAX_KEY_LEN
            &&& entries[x].key@[0] == PARTITION_MARKER
            &&& entries[x].value@.len() <= MAX_VALUE_LEN
        }
}

/// Whether `entries` can make up a genesis image: every entry has a
/// partition key and can be stored, and no key occurs twice.
pub open spec fn image_entries_ok(entries: Seq<StorageEntry>) -> bool {
    all_partition_keys(entries) && distinct_keys(entries)
}

/// Two valid payloads for one module stand at one position.
pub proof fn lemma_payload_position_unique(
    runtime: RuntimeModel,
    payloads: Seq<ModuleGenesis>,
    a: int,
    b: int,
)
    requires
        0 <= a < payloads.len(),
        0 <= b < payloads.len(),
        payload_ok(runtime, payloads, a),
        payload_ok(runtime, payloads, b),
        payloads[a].module == payloads[b].module,
    ensures
        a == b,
{
    if a < b {
        assert(payloads[a].module == payloads[b].module);
        assert(payload_seen_before(payloads, b));
    } else if b < a {
        assert(payloads[b].module == payloads[a].module);
        assert(payload_seen_before(payloads, a));
    }
}

/// The first of the first `limit` payloads that configures `module`.
fn find_payload(payloads: &Vec<ModuleGenesis>, limit: usize, module: ModuleId) -> (found: Option<
    usize,
>)
    requires
        limit <= payloads.len(),
    ensures
        match found {
            Some(p) => {
                &&& p < limit
                &&& payloads@[p as int].module == module
                &&& forall|q: int| 0 <= q < p ==> (#[trigger] payloads@[q]).module != module
            },
            None => forall|q: int| 0 <= q < limit ==> (#[trigger] payloads@[q]).module != module,
        },
{
    let mut p: usize = 0;
    while p < limit
        invariant
            p <= limit <= payloads.len(),
            forall|q: int| 0 <= q < p ==> (#[trigger] payloads@[q]).module != module,
        decreases limit - p,
    {
        if payloads[p].module == module {
            return Some(p);
        }
        p += 1;
    }
    None
}

/// The genesis image: the flat key-value store a runtime starts from.
#[derive(Debug, PartialEq, Eq)]
pub struct GenesisImage {
    entries: Vec<StorageEntry>,
}

impl View for GenesisImage {
    type V = Map<Seq<u8>, Seq<u8>>;

    closed spec fn view(&self) -> Map<Seq<u8>, Seq<u8>> {
        store_of(pairs_of(self.entries@))
    }
}

impl GenesisImage {
    /// Every key of an image lies in a module partition, can be stored,
    /// and occurs once.
    #[verifier::type_invariant]
    pub open spec fn inv(self) -> bool {
        image_entries_ok(self.entries_view())
    }

    /// The entries of the image, in the order they were laid out.
    pub closed spec fn entries_view(self) -> Seq<StorageEntry> {
        self.entries@
    }

    /// The key-value pairs of the image, in the order they were laid out.
    pub open spec fn pairs(self) -> Seq<(Seq<u8>, Seq<u8>)> {
        pairs_of(self.entries_view())
    }

    /// The view of an image is the store its pairs stand for.
    pub proof fn lemma_view(self)
        ensures
            self@ == store_of(self.pairs()),
    {
    }

    /// The entries of the image, in the order they were laid out.
    pub fn entries(&self) -> (entries: &Vec<StorageEntry>)
        ensures
            entries@ == self.entries_view(),
            image_entries_ok(entries@),
    {
        proof {
            use_type_invariant(self);
        }
        &self.entries
    }

    /// Gives up the image for its entries.
    pub fn into_entries(self) -> (entries: Vec<StorageEntry>)
        ensures
            entries@ == self.entries_view(),
            image_entries_ok(entries@),
    {
        proof {
            use_type_invariant(&self);
        }
        self.entries
    }

    /// How many entries the image was laid out from.
    pub fn len(&self) -> (n: usize)
        ensures
            n == self.pairs().len(),
    {
        self.entries.len()
    }

    /// The value the image holds under `key`.
    pub fn get(&self, key: &Vec<u8>) -> (value: Option<Vec<u8>>)
        ensures
            match value {
                Some(v) => self@.contains_key(key@) && self@[key@] == v@,
                None => !self@.contains_key(key@),
            },
    {
        let mut n: usize = self.entries.len();
        assert(pairs_of(self.entries@).subrange(0, n as int) =~= pairs_of(self.entries@));
        while n > 0
            invariant
                n <= self.entries.len(),
                store_of(pairs_of(self.entries@)).contains_key(key@) == store_of(
                    pairs_of(self.entries@).subrange(0, n as int),
                ).contains_key(key@),
                store_of(pairs_of(self.entries@)).contains_key(key@) ==> store_of(
                    pairs_of(self.entries@),
                )[key@] == store_of(pairs_of(self.entries@).subrange(0, n as int))[key@],
            decreases n,
        {
            let ghost head = pairs_of(self.entries@).subrange(0, n as int);
            assert(head.drop_last() =~= pairs_of(self.entries@).subrange(0, n - 1));
            assert(head.last() == self.entries@[n - 1]@);
            n -= 1;
            if bytes_eq(&self.entries[n].key, key) {
                return Some(copy_bytes(&self.entries[n].value));
            }
        }
        assert(pairs_of(self.entries@).subrange(0, 0) =~= Seq::empty());
        None
    }
}

impl GenesisConfig {
    /// The configuration that leaves every module at its default.
    pub fn new() -> (config: GenesisConfig)
        ensures
            config.payloads@.len() == 0,
    {
        GenesisConfig { payloads: Vec::new() }
    }

    /// The configuration with one more payload: `entries` for `module`.
    pub fn with_payload(self, module: ModuleId, entries: Vec<StorageEntry>) -> (config:
        GenesisConfig)
        ensures
            config.payloads@ == self.payloads@.push((ModuleGenesis { module, entries })),
    {
        let mut payloads = self.payloads;
        payloads.push(ModuleGenesis { module, entries });
        GenesisConfig { payloads }
    }

    /// The payload that the configuration supplies for `module`: the first
    /// one, should there be several.
    pub fn payload_for(&self, module: ModuleId) -> (payload: Option<&Vec<StorageEntry>>)
        ensures
            payload is Some <==> supplied(self.payloads@, module),
            match payload {
                Some(entries) => exists|p: int|
                    {
                        &&& 0 <= p < self.payloads@.len()
                        &&& (#[trigger] self.payloads@[p]).module == module
                        &&& *entries == self.payloads@[p].entries
                        &&& forall|q: int| 0 <= q < p ==> (#[trigger] self.payloads@[q]).module != module
                    },
                None => true,
            },
    {
        match find_payload(&self.payloads, self.payloads.len(), module) {
            Some(p) => {
                assert(self.payloads@[p as int].module == module);
                Some(&self.payloads[p].entries)
            },
            None => None,
        }
    }

    /// The first invalid payload, if there is one.
    pub fn first_defect(&self, runtime: &CompositeRuntime) -> (found: Option<GenesisError>)
        ensures
            match found {
                Some(e) => e.is_first_defect_of(runtime@, self.payloads@),
                None => config_ok(runtime@, self.payloads@),
            },
    {
        let modules = runtime.modules();
        let mut p: usize = 0;
        while p < self.payloads.len()
            invariant
                p <= self.payloads.len(),
                modules@ == runtime@.modules,
                runtime@.wf(),
                forall|q: int| 0 <= q < p ==> #[trigger] payload_ok(runtime@, self.payloads@, q),
            decreases self.payloads.len() - p,
        {
            let module = self.payloads[p].module;
            let i = match runtime.position(module) {
                Some(i) => i,
                None => {
                    return Some(
                        GenesisError { index: p, module, defect: GenesisDefect::UnknownModule },
                    );
                },
            };
            if !modules[i].capabilities.genesis {
                return Some(
                    GenesisError { index: p, module, defect: GenesisDefect::NotConfigurable },
                );
            }
            if find_payload(&self.payloads, p, module).is_some() {
                return Some(GenesisError { index: p, module, defect: GenesisDefect::SuppliedTwice });
            }
            match first_oversized_entry(&self.payloads[p].entries) {
                Some(entry) => {
                    let defect = if self.payloads[p].entries[entry].key.len() > MAX_ITEM_LEN {
                        GenesisDefect::KeyTooLong { entry }
                    } else {
                        GenesisDefect::ValueTooLong { entry }
                    };
                    return Some(GenesisError { index: p, module, defect });
                },
                None => {},
            }
            match first_repeated_key(&self.payloads[p].entries) {
                Some(entry) => {
                    return Some(
                        GenesisError {
                            index: p,
                            module,
                            defect: GenesisDefect::DuplicateKey { entry },
                        },
                    );
                },
                None => {},
            }
            p += 1;
        }
        None
    }

    /// Lays the effective payloads out, module after module.
    fn materialize(&self, runtime: &CompositeRuntime) -> (entries: Vec<StorageEntry>)
        requires
            config_ok(runtime@, self.payloads@),
        ensures
            pairs_of(entries@) == genesis_pairs(runtime@, self.payloads@),
            image_entries_ok(entries@),
    {
        let modules = runtime.modules();
        let mut entries: Vec<StorageEntry> = Vec::new();
        let mut i: usize = 0;
        assert(pairs_of(entries@) =~= image_of_first(runtime@, self.payloads@, 0));
        while i < modules.len()
            invariant
                i <= modules.len(),
                modules@ == runtime@.modules,
                runtime@.wf(),
                config_ok(runtime@, self.payloads@),
                pairs_of(entries@) == image_of_first(runtime@, self.payloads@, i as nat),
                all_partition_keys(entries@),
            decreases modules.len() - i,
        {
            let namespace = runtime.namespace_at(i);
            let payload: &Vec<StorageEntry> = match find_payload(
                &self.payloads,
                self.payloads.len(),
                modules[i].id,
            ) {
                Some(p) => {
                    proof {
                        let module = modules@[i as int].id;
                        assert(self.payloads@[p as int].module == module);
                        let q = supplied_at(self.payloads@, module);
                        assert(payload_ok(runtime@, self.payloads@, p as int));
                        assert(payload_ok(runtime@, self.payloads@, q));
                        lemma_payload_position_unique(runtime@, self.payloads@, p as int, q);
                    }
                    &self.payloads[p].entries
                },
                None => &modules[i].default_genesis,
            };
            assert(payload@ == effective_payload(runtime@, self.payloads@, i as int));
            proof {
                lemma_effective_payload_distinct(runtime@, self.payloads@, i as int);
            }
            let ghost before = pairs_of(entries@);
            let ghost laid = partition(namespace, payload@);
            let mut j: usize = 0;
            assert(pairs_of(entries@) =~= before + laid.subrange(0, 0));
            while j < payload.len()
                invariant
                    j <= payload.len(),
                    entries_fit(payload@),
                    laid == partition(namespace, payload@),
                    pairs_of(entries@) == before + laid.subrange(0, j as int),
                    all_partition_keys(entries@),
                decreases payload.len() - j,
            {
                let key = make_storage_key(namespace, &payload[j].key);
                let value = copy_bytes(&payload[j].value);
                proof {
                    lemma_storage_key_not_reserved(namespace, payload@[j as int].key@);
                    assert(entry_fits(payload@, j as int));
                }
                let ghost prev = entries@;
                entries.push(StorageEntry { key, value });
                assert(pairs_of(entries@) =~= before + laid.subrange(0, j + 1)) by {
                    let grown = before + laid.subrange(0, j + 1);
                    assert(pairs_of(prev).len() == before.len() + j);
                    assert forall|x: int| 0 <= x < grown.len() implies pairs_of(entries@)[x]
                        == grown[x] by {
                        if x < prev.len() {
                            assert(pairs_of(entries@)[x] == pairs_of(prev)[x]);
                            assert(pairs_of(prev)[x] == (before + laid.subrange(0, j as int))[x]);
                        } else {
                            assert(entries@[x]@ == laid[j as int]);
                        }
                    }
                }
                j += 1;
            }
            assert(laid.subrange(0, payload@.len() as int) =~= laid);
            i += 1;
        }
        proof {
            lemma_genesis_pairs_distinct(runtime@, self.payloads@, runtime@.modules.len());
            assert forall|y: int| 0 <= y < entries@.len() implies !#[trigger] key_seen_before(
                entries@,
                y,
            ) by {
                if key_seen_before(entries@, y) {
                    let x = choose|x: int| 0 <= x < y && #[trigger] entries@[x].key@ == entries@[y].key@;
                    assert(pairs_of(entries@)[x].0 == pairs_of(entries@)[y].0);
                }
            }
        }
        entries
    }

    /// Builds the genesis image of `runtime`, or reports the first invalid
    /// payload.
    pub fn build(&self, runtime: &CompositeRuntime) -> (result: Result<GenesisImage, GenesisError>)
        ensures
            result is Ok <==> config_ok(runtime@, self.payloads@),
            match result {
                Ok(image) => {
                    &&& image.pairs() == genesis_pairs(runtime@, self.payloads@)
                    &&& image@ == genesis_state(runtime@, self.payloads@)
                },
                Err(e) => e.is_first_defect_of(runtime@, self.payloads@),
            },
    {
        match self.first_defect(runtime) {
            Some(e) => {
                proof {
                    lemma_defect_excludes_valid(e, runtime@, self.payloads@);
                }
                Err(e)
            },
            None => {
                let entries = self.materialize(runtime);
                Ok(GenesisImage { entries })
            },
        }
    }
}

impl Default for GenesisConfig {
    /// The configuration that leaves every module at its default.
    fn default() -> (config: GenesisConfig)
        ensures
            config.payloads@.len() == 0,
    {
        GenesisConfig::new()
    }
}

/// A configuration with a defect is not valid.
pub proof fn lemma_defect_excludes_valid(
    e: GenesisError,
    runtime: RuntimeModel,
    payloads: Seq<ModuleGenesis>,
)
    requires
        e.is_first_defect_of(runtime, payloads),
    ensures
        !payload_ok(runtime, payloads, e.index as int),
        !config_ok(runtime, payloads),
{
    let entries = payloads[e.index as int].entries@;
    match e.defect {
        GenesisDefect::KeyTooLong { entry } => {
            assert(!entry_fits(entries, entry as int));
        },
        GenesisDefect::ValueTooLong { entry } => {
            assert(!entry_fits(entries, entry as int));
        },
        GenesisDefect::DuplicateKey { entry } => {
            assert(key_seen_before(entries, entry as int));
        },
        _ => {},
    }
    assert(!payload_ok(runtime, payloads, e.index as int));
}

/// Whether entry `j` of the module at position `i` is laid out under `key`.
pub open spec fn places(
    runtime: RuntimeModel,
    payloads: Seq<ModuleGenesis>,
    i: int,
    j: int,
    key: Seq<u8>,
) -> bool {
    &&& 0 <= i < runtime.modules.len()
    &&& 0 <= j < effective_payload(runtime, payloads, i).len()
    &&& key == storage_key(runtime.namespace(i), effective_payload(runtime, payloads, i)[j].key@)
}

/// A store holds a key exactly if one of its pairs has it.
pub proof fn lemma_store_of_keys(pairs: Seq<(Seq<u8>, Seq<u8>)>, key: Seq<u8>)
    ensures
        store_of(pairs).contains_key(key) <==> exists|x: int|
            0 <= x < pairs.len() && (#[trigger] pairs[x]).0 == key,
    decreases pairs.len(),
{
    if pairs.len() > 0 {
        let head = pairs.drop_last();
        lemma_store_of_keys(head, key);
        if store_of(pairs).contains_key(key) {
            if pairs.last().0 == key {
                assert(pairs[pairs.len() - 1].0 == key);
            } else {
                let x = choose|x: int| 0 <= x < head.len() && (#[trigger] head[x]).0 == key;
                assert(pairs[x].0 == key);
            }
        }
        if exists|x: int| 0 <= x < pairs.len() && (#[trigger] pairs[x]).0 == key {
            let x = choose|x: int| 0 <= x < pairs.len() && (#[trigger] pairs[x]).0 == key;
            if x < head.len() {
                assert(head[x].0 == key);
            }
        }
    }
}

/// Where every pair with the key `key` has the value `value`, and there is
/// such a pair, the store holds `value` under `key`.
pub proof fn lemma_store_of_value(pairs: Seq<(Seq<u8>, Seq<u8>)>, key: Seq<u8>, value: Seq<u8>)
    requires
        exists|x: int| 0 <= x < pairs.len() && (#[trigger] pairs[x]).0 == key,
        forall|x: int| 0 <= x < pairs.len() && (#[trigger] pairs[x]).0 == key ==> pairs[x].1 == value,
    ensures
        store_of(pairs).contains_key(key),
        store_of(pairs)[key] == value,
    decreases pairs.len(),
{
    let head = pairs.drop_last();
    let last = pairs.len() - 1;
    if pairs[last].0 != key {
        let x = choose|x: int| 0 <= x < pairs.len() && (#[trigger] pairs[x]).0 == key;
        assert(head[x].0 == key);
        assert forall|y: int| 0 <= y < head.len() && (#[trigger] head[y]).0 == key implies head[y].1
            == value by {
            assert(pairs[y].0 == key);
        }
        lemma_store_of_value(head, key, value);
    }
}

/// Every pair among the partitions of the first `n` modules is an entry of
/// one of those modules, laid out under its key.
pub proof fn lemma_image_pair_is_placed(
    runtime: RuntimeModel,
    payloads: Seq<ModuleGenesis>,
    n: nat,
    x: int,
)
    requires
        n <= runtime.modules.len(),
        0 <= x < image_of_first(runtime, payloads, n).len(),
    ensures
        exists|i: int, j: int|
            i < n && #[trigger] places(runtime, payloads, i, j, image_of_first(runtime, payloads, n)[x].0)
                && image_of_first(runtime, payloads, n)[x].1 == effective_payload(
                runtime,
                payloads,
                i,
            )[j].value@,
    decreases n,
{
    let pairs = image_of_first(runtime, payloads, n);
    let head = image_of_first(runtime, payloads, (n - 1) as nat);
    if x < head.len() {
        lemma_image_pair_is_placed(runtime, payloads, (n - 1) as nat, x);
        let (i, j) = choose|i: int, j: int|
            i < n - 1 && #[trigger] places(runtime, payloads, i, j, head[x].0) && head[x].1
                == effective_payload(runtime, payloads, i)[j].value@;
        assert(places(runtime, payloads, i, j, pairs[x].0));
    } else {
        let j = x - head.len();
        assert(places(runtime, payloads, n - 1, j, pairs[x].0));
    }
}

/// Every entry of one of the first `n` modules occurs, laid out under its
/// key, among the partitions of those modules.
pub proof fn lemma_placed_is_image_pair(
    runtime: RuntimeModel,
    payloads: Seq<ModuleGenesis>,
    n: nat,
    i: int,
    j: int,
)
    requires
        n <= runtime.modules.len(),
        0 <= i < n,
        0 <= j < effective_payload(runtime, payloads, i).len(),
    ensures
        exists|x: int|
            0 <= x < image_of_first(runtime, payloads, n).len() && (#[trigger] image_of_first(
                runtime,
                payloads,
                n,
            )[x]) == (
                storage_key(runtime.namespace(i), effective_payload(runtime, payloads, i)[j].key@),
                effective_payload(runtime, payloads, i)[j].value@,
            ),
    decreases n,
{
    let pairs = image_of_first(runtime, payloads, n);
    let head = image_of_first(runtime, payloads, (n - 1) as nat);
    let wanted = (
        storage_key(runtime.namespace(i), effective_payload(runtime, payloads, i)[j].key@),
        effective_payload(runtime, payloads, i)[j].value@,
    );
    if i < n - 1 {
        lemma_placed_is_image_pair(runtime, payloads, (n - 1) as nat, i, j);
        let x = choose|x: int| 0 <= x < head.len() && (#[trigger] head[x]) == wanted;
        assert(pairs[x] == wanted);
    } else {
        assert(pairs[head.len() + j] == wanted);
    }
}

/// The effective payload of every module of a valid configuration has
/// distinct keys, and every entry of it can be stored.
pub proof fn lemma_effective_payload_distinct(
    runtime: RuntimeModel,
    payloads: Seq<ModuleGenesis>,
    i: int,
)
    requires
        runtime.wf(),
        config_ok(runtime, payloads),
        0 <= i < runtime.modules.len(),
    ensures
        distinct_keys(effective_payload(runtime, payloads, i)),
        entries_fit(effective_payload(runtime, payloads, i)),
{
    let module = runtime.modules[i].id;
    if supplied(payloads, module) {
        assert(payload_ok(runtime, payloads, supplied_at(payloads, module)));
    } else {
        assert(module_ok(runtime.modules, i));
    }
}

/// In a valid configuration no key is laid out twice.
pub proof fn lemma_placement_unique(
    runtime: RuntimeModel,
    payloads: Seq<ModuleGenesis>,
    i1: int,
    j1: int,
    i2: int,
    j2: int,
    key: Seq<u8>,
)
    requires
        runtime.wf(),
        config_ok(runtime, payloads),
        places(runtime, payloads, i1, j1, key),
        places(runtime, payloads, i2, j2, key),
    ensures
        i1 == i2,
        j1 == j2,
{
    let e1 = effective_payload(runtime, payloads, i1);
    let e2 = effective_payload(runtime, payloads, i2);
    lemma_storage_key_injective(
        runtime.namespace(i1),
        e1[j1].key@,
        runtime.namespace(i2),
        e2[j2].key@,
    );
    if i1 != i2 {
        runtime.lemma_namespaces_distinct(i1, i2);
    }
    lemma_effective_payload_distinct(runtime, payloads, i1);
    if j1 < j2 {
        assert(e1[j1].key@ == e1[j2].key@);
        assert(key_seen_before(e1, j2));
    } else if j2 < j1 {
        assert(e1[j2].key@ == e1[j1].key@);
        assert(key_seen_before(e1, j1));
    }
}

/// Among the partitions of the first `n` modules of a valid configuration
/// no key occurs twice.
pub proof fn lemma_genesis_pairs_distinct(
    runtime: RuntimeModel,
    payloads: Seq<ModuleGenesis>,
    n: nat,
)
    requires
        runtime.wf(),
        config_ok(runtime, payloads),
        n <= runtime.modules.len(),
    ensures
        forall|x: int, y: int|
            0 <= x < y < image_of_first(runtime, payloads, n).len() ==> (#[trigger] image_of_first(
                runtime,
                payloads,
                n,
            )[x]).0 != (#[trigger] image_of_first(runtime, payloads, n)[y]).0,
    decreases n,
{
    if n > 0 {
        let pairs = image_of_first(runtime, payloads, n);
        let head = image_of_first(runtime, payloads, (n - 1) as nat);
        let last = effective_payload(runtime, payloads, n - 1);
        lemma_genesis_pairs_distinct(runtime, payloads, (n - 1) as nat);
        lemma_effective_payload_distinct(runtime, payloads, n - 1);
        assert forall|x: int, y: int| 0 <= x < y < pairs.len() implies (#[trigger] pairs[x]).0 != (
        #[trigger] pairs[y]).0 by {
            if pairs[x].0 == pairs[y].0 {
                if y < head.len() {
                    assert(head[x].0 == head[y].0);
                } else if x < head.len() {
                    lemma_image_pair_is_placed(runtime, payloads, (n - 1) as nat, x);
                    let (i, j) = choose|i: int, j: int|
                        i < n - 1 && #[trigger] places(runtime, payloads, i, j, head[x].0) && head[x].1
                            == effective_payload(runtime, payloads, i)[j].value@;
                    assert(places(runtime, payloads, n - 1, y - head.len(), pairs[y].0));
                    lemma_placement_unique(runtime, payloads, i, j, n - 1, y - head.len(), pairs[x].0);
                } else {
                    let a = x - head.len();
                    let b = y - head.len();
                    lemma_storage_key_injective(
                        runtime.namespace(n - 1),
                        last[a].key@,
                        runtime.namespace(n - 1),
                        last[b].key@,
                    );
                    assert(last[a].key@ == last[b].key@);
                    assert(key_seen_before(last, b));
                }
            }
        }
    }
}

/// The genesis state of a valid configuration holds the effective payload
/// of every module, each entry under its partition key, and nothing else.
pub proof fn lemma_genesis_state_is_effective_payloads(
    runtime: RuntimeModel,
    payloads: Seq<ModuleGenesis>,
)
    requires
        runtime.wf(),
        config_ok(runtime, payloads),
    ensures
        forall|i: int, j: int, key: Seq<u8>| #[trigger]
            places(runtime, payloads, i, j, key) ==> genesis_state(runtime, payloads).contains_pair(
                key,
                effective_payload(runtime, payloads, i)[j].value@,
            ),
        forall|key: Seq<u8>| #[trigger]
            genesis_state(runtime, payloads).contains_key(key) ==> exists|i: int, j: int| #[trigger]
                places(runtime, payloads, i, j, key),
{
    let n = runtime.modules.len();
    let pairs = genesis_pairs(runtime, payloads);
    assert forall|i: int, j: int, key: Seq<u8>| #[trigger]
        places(runtime, payloads, i, j, key) implies genesis_state(runtime, payloads).contains_pair(
        key,
        effective_payload(runtime, payloads, i)[j].value@,
    ) by {
        let value = effective_payload(runtime, payloads, i)[j].value@;
        lemma_placed_is_image_pair(runtime, payloads, n, i, j);
        let x = choose|x: int| 0 <= x < pairs.len() && (#[trigger] pairs[x]) == (key, value);
        assert(pairs[x].0 == key);
        assert forall|y: int| 0 <= y < pairs.len() && (#[trigger] pairs[y]).0 == key implies pairs[y].1
            == value by {
            lemma_image_pair_is_placed(runtime, payloads, n, y);
            let (i2, j2) = choose|i2: int, j2: int|
                i2 < n && #[trigger] places(runtime, payloads, i2, j2, pairs[y].0) && pairs[y].1
                    == effective_payload(runtime, payloads, i2)[j2].value@;
            lemma_placement_unique(runtime, payloads, i, j, i2, j2, key);
        }
        lemma_store_of_value(pairs, key, value);
    }
    assert forall|key: Seq<u8>| #[trigger]
        genesis_state(runtime, payloads).contains_key(key) implies exists|i: int, j: int| #[trigger]
        places(runtime, payloads, i, j, key) by {
        lemma_store_of_keys(pairs, key);
        let x = choose|x: int| 0 <= x < pairs.len() && (#[trigger] pairs[x]).0 == key;
        lemma_image_pair_is_placed(runtime, payloads, n, x);
    }
}

/// The configuration that supplies nothing is valid for every runtime, and
/// under it every module starts from its declared default.
pub proof fn lemma_default_config_is_valid(runtime: RuntimeModel)
    ensures
        config_ok(runtime, Seq::empty()),
        forall|i: int|
            0 <= i < runtime.modules.len() ==> #[trigger] effective_payload(runtime, Seq::empty(), i)
                == runtime.modules[i].default_genesis@,
{
}

/// A module that starts from an empty payload has an empty partition: the
/// genesis state holds no key of its namespace.
pub proof fn lemma_empty_payload_leaves_partition_empty(
    runtime: RuntimeModel,
    payloads: Seq<ModuleGenesis>,
    i: int,
)
    requires
        runtime.wf(),
        config_ok(runtime, payloads),
        0 <= i < runtime.modules.len(),
        effective_payload(runtime, payloads, i).len() == 0,
    ensures
        forall|item: Seq<u8>|
            !genesis_state(runtime, payloads).contains_key(
                #[trigger] storage_key(runtime.namespace(i), item),
            ),
{
    lemma_genesis_state_is_effective_payloads(runtime, payloads);
    assert forall|item: Seq<u8>|
        !genesis_state(runtime, payloads).contains_key(
            #[trigger] storage_key(runtime.namespace(i), item),
        ) by {
        let key = storage_key(runtime.namespace(i), item);
        if genesis_state(runtime, payloads).contains_key(key) {
            let (i2, j2) = choose|i2: int, j2: int| #[trigger] places(runtime, payloads, i2, j2, key);
            lemma_storage_key_injective(
                runtime.namespace(i),
                item,
                runtime.namespace(i2),
                effective_payload(runtime, payloads, i2)[j2].key@,
            );
            if i != i2 {
                runtime.lemma_namespaces_distinct(i, i2);
            }
        }
    }
}

/// A configuration has at most one first defect: what a failed build
/// reports is determined by the runtime and the configuration.
pub proof fn lemma_first_genesis_defect_is_unique(
    e1: GenesisError,
    e2: GenesisError,
    runtime: RuntimeModel,
    payloads: Seq<ModuleGenesis>,
)
    requires
        e1.is_first_defect_of(runtime, payloads),
        e2.is_first_defect_of(runtime, payloads),
    ensures
        e1 == e2,
{
    let a = e1.index as int;
    let b = e2.index as int;
    lemma_defect_excludes_valid(e1, runtime, payloads);
    lemma_defect_excludes_valid(e2, runtime, payloads);
    if a < b {
        assert(payload_ok(runtime, payloads, a));
    } else if b < a {
        assert(payload_ok(runtime, payloads, b));
    }
    let entries = payloads[a].entries@;
    match (e1.defect, e2.defect) {
        (GenesisDefect::DuplicateKey { entry: j1 }, GenesisDefect::DuplicateKey { entry: j2 }) => {
            assert(key_seen_before(entries, j1 as int));
            assert(key_seen_before(entries, j2 as int));
        },
        (GenesisDefect::DuplicateKey { .. }, GenesisDefect::KeyTooLong { entry: j2 }) => {
            assert(entry_fits(entries, j2 as int));
        },
        (GenesisDefect::DuplicateKey { .. }, GenesisDefect::ValueTooLong { entry: j2 }) => {
            assert(entry_fits(entries, j2 as int));
        },
        (GenesisDefect::KeyTooLong { entry: j1 }, GenesisDefect::DuplicateKey { .. }) => {
            assert(entry_fits(entries, j1 as int));
        },
        (GenesisDefect::ValueTooLong { entry: j1 }, GenesisDefect::DuplicateKey { .. }) => {
            assert(entry_fits(entries, j1 as int));
        },
        (GenesisDefect::KeyTooLong { entry: j1 }, GenesisDefect::KeyTooLong { entry: j2 }) => {
            assert(!entry_fits(entries, j1 as int));
            assert(!entry_fits(entries, j2 as int));
        },
        (GenesisDefect::KeyTooLong { entry: j1 }, GenesisDefect::ValueTooLong { entry: j2 }) => {
            assert(!entry_fits(entries, j1 as int));
            assert(!entry_fits(entries, j2 as int));
        },
        (GenesisDefect::ValueTooLong { entry: j1 }, GenesisDefect::KeyTooLong { entry: j2 }) => {
            assert(!entry_fits(entries, j1 as int));
            assert(!entry_fits(entries, j2 as int));
        },
        (GenesisDefect::ValueTooLong { entry: j1 }, GenesisDefect::ValueTooLong { entry: j2 }) => {
            assert(!entry_fits(entries, j1 as int));
            assert(!entry_fits(entries, j2 as int));
        },
        _ => {},
    }
}

} // verus!
