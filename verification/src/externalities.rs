//! The execution boundary around a store.
//!
//! A context is the execution engine's own test externalities, filled with
//! a genesis image. Reads and writes go through the engine, so what a module
//! sees here is what it sees when the engine runs it.
//!
//! The engine fills two keys of its own into every new store, `:heappages`
//! and `:code`. They belong to no module, so a context clears them before it
//! is handed out: a fresh context holds the image and nothing else.
use vstd::prelude::*;
use tet_core::traits::Externalities;
use crate::descriptor::ModuleId;
use crate::genesis::{
    config_ok, effective_payload, genesis_state, lemma_default_config_is_valid,
    lemma_empty_payload_leaves_partition_empty, lemma_genesis_state_is_effective_payloads,
    lemma_store_of_keys, places, store_of, GenesisConfig, GenesisError, GenesisImage,
    ModuleGenesis,
};
use crate::keys::{
    child_storage_prefix, code_key, code_key_bytes, distinct_keys, has_child_storage_prefix,
    heap_pages_key, heap_pages_key_bytes, is_child_storage_key, lemma_engine_keys_are_top_level,
    lemma_storage_key_not_reserved, pairs_of, storage_key, StorageEntry, MAX_KEY_LEN,
    MAX_VALUE_LEN,
};
use crate::runtime::{CompositeRuntime, RuntimeModel};

verus! {

/// An execution-scoped store, owned by one test.
///
/// Holds a `tet_io::TestExternalities`. Nothing of its inside is visible to
/// the proofs; they speak of it through [`context_state`] alone.
#[verifier::external_body]
#[derive(Debug)]
pub struct ExternalitiesContext {
    inner: tet_io::TestExternalities,
}

/// The key-value pairs that a context holds: what a read through the
/// engine's `Externalities::storage` finds under each key.
pub uninterp spec fn context_state(ctx: ExternalitiesContext) -> Map<Seq<u8>, Seq<u8>>;

/// The value the engine stores under `:heappages`: the number 8 as eight
/// little-endian bytes.
pub open spec fn heap_pages_value() -> Seq<u8> {
    seq![8u8, 0u8, 0u8, 0u8, 0u8, 0u8, 0u8, 0u8]
}

/// What the engine makes of a store when it wraps it: the store itself and
/// the two entries the engine adds, the heap page count and the empty
/// runtime code.
pub open spec fn engine_start_state(store: Map<Seq<u8>, Seq<u8>>) -> Map<Seq<u8>, Seq<u8>> {
    store.insert(heap_pages_key(), heap_pages_value()).insert(code_key(), Seq::empty())
}

/// The state after a write of `value` under `key`: the engine refuses the
/// keys of child tries and stores under every other key.
pub open spec fn state_after_set(state: Map<Seq<u8>, Seq<u8>>, key: Seq<u8>, value: Seq<u8>) -> Map<
    Seq<u8>,
    Seq<u8>,
> {
    if is_child_storage_key(key) {
        state
    } else {
        state.insert(key, value)
    }
}

/// The state after `key` is cleared: the engine refuses the keys of child
/// tries and clears every other key.
pub open spec fn state_after_remove(state: Map<Seq<u8>, Seq<u8>>, key: Seq<u8>) -> Map<
    Seq<u8>,
    Seq<u8>,
> {
    if is_child_storage_key(key) {
        state
    } else {
        state.remove(key)
    }
}

/// Calls `tet_io::TestExternalities::new` on a `Storage` whose top trie is
/// filled with `entries`, one `BTreeMap::insert` after the other, and whose
/// child tries are empty.
///
/// Not proved: that the new externalities hold the entries together with
/// `:heappages`, set to the encoded number 8, and `:code`, set to the empty
/// code. The engine panics on a top-level key that starts with
/// `:child_storage:`, its trie does not find a key again whose length in
/// half bytes exceeds 65535, and its codec panics on a value whose length
/// does not fit thirty-two bits, so such entries are excluded; the keys are
/// also asked to be distinct, so that every entry makes one entry of the
/// map.
#[verifier::external_body]
fn externalities_with_entries(entries: Vec<StorageEntry>) -> (ctx: ExternalitiesContext)
    requires
        forall|x: int|
            0 <= x < entries@.len() ==> {
                &&& !is_child_storage_key((#[trigger] entries@[x]).key@)
                &&& entries@[x].key@.len() <= MAX_KEY_LEN
                &&& entries@[x].value@.len() <= MAX_VALUE_LEN
            },
        distinct_keys(entries@),
    ensures
        context_state(ctx) == engine_start_state(store_of(pairs_of(entries@))),
{
    let mut top = std::collections::BTreeMap::new();
    for entry in entries {
        top.insert(entry.key, entry.value);
    }
    let storage = tet_core::storage::Storage { top, children_default: Default::default() };
    ExternalitiesContext { inner: tet_io::TestExternalities::new(storage) }
}

/// Calls `Externalities::storage` on the `Ext` of the wrapped externalities.
///
/// Not proved: that the read returns the value held under `key`, or `None`
/// where there is none, and leaves the state as it was.
#[verifier::external_body]
fn read_storage(ctx: &mut ExternalitiesContext, key: &Vec<u8>) -> (value: Option<Vec<u8>>)
    ensures
        context_state(*final(ctx)) == context_state(*old(ctx)),
        match value {
            Some(v) => context_state(*old(ctx)).contains_pair(key@, v@),
            None => !context_state(*old(ctx)).contains_key(key@),
        },
{
    ctx.inner.ext().storage(key.as_slice())
}

/// Calls `Externalities::set_storage` on the `Ext` of the wrapped
/// externalities.
///
/// Not proved: that afterwards `key` holds `value` and every other key holds
/// what it held, except that the engine ignores a write to a key that starts
/// with `:child_storage:`.
#[verifier::external_body]
fn write_storage(ctx: &mut ExternalitiesContext, key: Vec<u8>, value: Vec<u8>)
    ensures
        context_state(*final(ctx)) == state_after_set(context_state(*old(ctx)), key@, value@),
{
    ctx.inner.ext().set_storage(key, value)
}

/// Calls `Externalities::clear_storage` on the `Ext` of the wrapped
/// externalities.
///
/// Not proved: that afterwards `key` holds nothing and every other key holds
/// what it held, except that the engine ignores the clearing of a key that
/// starts with `:child_storage:`.
#[verifier::external_body]
fn erase_storage(ctx: &mut ExternalitiesContext, key: &Vec<u8>)
    ensures
        context_state(*final(ctx)) == state_after_remove(context_state(*old(ctx)), key@),
{
    ctx.inner.ext().clear_storage(key.as_slice())
}

impl ExternalitiesContext {
    /// The key-value pairs the context holds.
    pub open spec fn state(self) -> Map<Seq<u8>, Seq<u8>> {
        context_state(self)
    }

    /// Wraps a genesis image for execution. The image is used up: the
    /// context is the only holder of the state from here on, and it holds
    /// what the image held and nothing else.
    pub fn new(image: GenesisImage) -> (ctx: ExternalitiesContext)
        ensures
            ctx.state() == image@,
    {
        proof {
            image.lemma_view();
        }
        let entries = image.into_entries();
        let ghost pairs = pairs_of(entries@);
        proof {
            lemma_engine_keys_are_top_level();
            lemma_store_of_keys(pairs, heap_pages_key());
            lemma_store_of_keys(pairs, code_key());
            assert forall|x: int| 0 <= x < entries@.len() implies !is_child_storage_key(
                (#[trigger] entries@[x]).key@,
            ) by {
                let key = entries@[x].key@;
                if is_child_storage_key(key) {
                    assert(key.subrange(0, 15)[0] == child_storage_prefix()[0]);
                }
            }
            assert forall|x: int| 0 <= x < pairs.len() implies (#[trigger] pairs[x]).0
                != heap_pages_key() && pairs[x].0 != code_key() by {
                assert(pairs[x].0 == entries@[x].key@);
                assert(heap_pages_key()[0] == 0x3au8);
                assert(code_key()[0] == 0x3au8);
            }
        }
        let mut ctx = externalities_with_entries(entries);
        erase_storage(&mut ctx, &heap_pages_key_bytes());
        erase_storage(&mut ctx, &code_key_bytes());
        assert(ctx.state() =~= store_of(pairs));
        ctx
    }

    /// Reads the value held under `key`.
    pub fn get(&mut self, key: &Vec<u8>) -> (value: Option<Vec<u8>>)
        ensures
            final(self).state() == old(self).state(),
            match value {
                Some(v) => old(self).state().contains_pair(key@, v@),
                None => !old(self).state().contains_key(key@),
            },
    {
        read_storage(self, key)
    }

    /// Whether a value is held under `key`.
    pub fn contains(&mut self, key: &Vec<u8>) -> (present: bool)
        ensures
            final(self).state() == old(self).state(),
            present == old(self).state().contains_key(key@),
    {
        read_storage(self, key).is_some()
    }

    /// Stores `value` under `key`. Keys of child tries cannot be written
    /// this way: the write is then refused and the state stays as it was.
    pub fn set(&mut self, key: Vec<u8>, value: Vec<u8>) -> (stored: bool)
        ensures
            stored == !is_child_storage_key(key@),
            final(self).state() == state_after_set(old(self).state(), key@, value@),
    {
        if has_child_storage_prefix(&key) {
            return false;
        }
        write_storage(self, key, value);
        true
    }

    /// Clears what is held under `key`. Keys of child tries cannot be
    /// cleared this way: the state then stays as it was.
    pub fn remove(&mut self, key: &Vec<u8>) -> (cleared: bool)
        ensures
            cleared == !is_child_storage_key(key@),
            final(self).state() == state_after_remove(old(self).state(), key@),
    {
        if has_child_storage_prefix(key) {
            return false;
        }
        erase_storage(self, key);
        true
    }
}

impl ExternalitiesContext {
    /// Reads item `item` of `module`, a module of `runtime` that keeps
    /// storage.
    pub fn read_item(&mut self, runtime: &CompositeRuntime, module: ModuleId, item: &Vec<u8>) -> (value:
        Option<Vec<u8>>)
        ensures
            final(self).state() == old(self).state(),
            match value {
                Some(v) => {
                    &&& runtime@.keeps_storage(module)
                    &&& old(self).state().contains_pair(
                        storage_key(runtime@.tag_of(module), item@),
                        v@,
                    )
                },
                None => {
                    ||| !runtime@.keeps_storage(module)
                    ||| !old(self).state().contains_key(storage_key(runtime@.tag_of(module), item@))
                },
            },
    {
        match runtime.item_key(module, item) {
            Some(key) => self.get(&key),
            None => None,
        }
    }

    /// Stores `value` as item `item` of `module`. Only a module of
    /// `runtime` that keeps storage can store: for any other the state
    /// stays as it was.
    pub fn write_item(
        &mut self,
        runtime: &CompositeRuntime,
        module: ModuleId,
        item: &Vec<u8>,
        value: Vec<u8>,
    ) -> (stored: bool)
        ensures
            stored == runtime@.keeps_storage(module),
            stored ==> final(self).state() == old(self).state().insert(
                storage_key(runtime@.tag_of(module), item@),
                value@,
            ),
            !stored ==> final(self).state() == old(self).state(),
    {
        match runtime.item_key(module, item) {
            Some(key) => {
                proof {
                    lemma_storage_key_not_reserved(runtime@.tag_of(module), item@);
                }
                self.set(key, value)
            },
            None => false,
        }
    }

    /// Clears item `item` of `module`. Only a module of `runtime` that
    /// keeps storage can clear: for any other the state stays as it was.
    pub fn clear_item(&mut self, runtime: &CompositeRuntime, module: ModuleId, item: &Vec<u8>) -> (cleared:
        bool)
        ensures
            cleared == runtime@.keeps_storage(module),
            cleared ==> final(self).state() == old(self).state().remove(
                storage_key(runtime@.tag_of(module), item@),
            ),
            !cleared ==> final(self).state() == old(self).state(),
    {
        match runtime.item_key(module, item) {
            Some(key) => {
                proof {
                    lemma_storage_key_not_reserved(runtime@.tag_of(module), item@);
                }
                self.remove(&key)
            },
            None => false,
        }
    }
}

impl GenesisImage {
    /// Wraps the image for execution.
    pub fn into_externalities(self) -> (ctx: ExternalitiesContext)
        ensures
            ctx.state() == self@,
    {
        ExternalitiesContext::new(self)
    }
}

impl GenesisConfig {
    /// Builds the genesis image of `runtime` and wraps it for execution, or
    /// reports the first invalid payload.
    pub fn build_externalities(&self, runtime: &CompositeRuntime) -> (result: Result<
        ExternalitiesContext,
        GenesisError,
    >)
        ensures
            result is Ok <==> config_ok(runtime@, self.payloads@),
            match result {
                Ok(ctx) => ctx.state() == genesis_state(runtime@, self.payloads@),
                Err(e) => e.is_first_defect_of(runtime@, self.payloads@),
            },
    {
        match self.build(runtime) {
            Ok(image) => Ok(image.into_externalities()),
            Err(e) => Err(e),
        }
    }
}

/// Building with the configuration that supplies nothing succeeds for every
/// runtime. The context then starts with the declared defaults of every
/// module, each under the prefix of its module, and with nothing else; a
/// module that declares no defaults starts with an empty partition.
pub proof fn lemma_all_default_genesis(runtime: RuntimeModel)
    requires
        runtime.wf(),
    ensures
        config_ok(runtime, Seq::empty()),
        forall|i: int, j: int|
            0 <= i < runtime.modules.len() && 0 <= j < runtime.modules[i].default_genesis@.len()
                ==> genesis_state(runtime, Seq::empty()).contains_pair(
                #[trigger] storage_key(
                    runtime.namespace(i),
                    runtime.modules[i].default_genesis@[j].key@,
                ),
                runtime.modules[i].default_genesis@[j].value@,
            ),
        forall|key: Seq<u8>| #[trigger]
            genesis_state(runtime, Seq::empty()).contains_key(key) ==> exists|i: int, j: int|
                {
                    &&& 0 <= i < runtime.modules.len()
                    &&& 0 <= j < runtime.modules[i].default_genesis@.len()
                    &&& key == #[trigger] storage_key(
                        runtime.namespace(i),
                        runtime.modules[i].default_genesis@[j].key@,
                    )
                },
        forall|i: int, item: Seq<u8>|
            0 <= i < runtime.modules.len() && runtime.modules[i].default_genesis@.len() == 0
                ==> !genesis_state(runtime, Seq::empty()).contains_key(
                #[trigger] storage_key(runtime.namespace(i), item),
            ),
{
    let none = Seq::<ModuleGenesis>::empty();
    let state = genesis_state(runtime, none);
    lemma_default_config_is_valid(runtime);
    lemma_genesis_state_is_effective_payloads(runtime, none);
    assert forall|i: int, j: int|
        0 <= i < runtime.modules.len() && 0 <= j < runtime.modules[i].default_genesis@.len()
        implies state.contains_pair(
        #[trigger] storage_key(runtime.namespace(i), runtime.modules[i].default_genesis@[j].key@),
        runtime.modules[i].default_genesis@[j].value@,
    ) by {
        assert(effective_payload(runtime, none, i) == runtime.modules[i].default_genesis@);
        assert(places(
            runtime,
            none,
            i,
            j,
            storage_key(runtime.namespace(i), runtime.modules[i].default_genesis@[j].key@),
        ));
    }
    assert forall|key: Seq<u8>| #[trigger] state.contains_key(key) implies exists|i: int, j: int|
        {
            &&& 0 <= i < runtime.modules.len()
            &&& 0 <= j < runtime.modules[i].default_genesis@.len()
            &&& key == #[trigger] storage_key(
                runtime.namespace(i),
                runtime.modules[i].default_genesis@[j].key@,
            )
        } by {
        let (i, j) = choose|i: int, j: int| #[trigger] places(runtime, none, i, j, key);
        assert(effective_payload(runtime, none, i) == runtime.modules[i].default_genesis@);
        assert(key == storage_key(
            runtime.namespace(i),
            runtime.modules[i].default_genesis@[j].key@,
        ));
    }
    assert forall|i: int, item: Seq<u8>|
        0 <= i < runtime.modules.len() && runtime.modules[i].default_genesis@.len() == 0
        implies !state.contains_key(#[trigger] storage_key(runtime.namespace(i), item)) by {
        assert(effective_payload(runtime, none, i) == runtime.modules[i].default_genesis@);
        lemma_empty_payload_leaves_partition_empty(runtime, none, i);
    }
}

/// Contexts are deterministic. Two contexts that start from the same
/// configuration of the same runtime hold the same state, and they go on
/// holding the same state as long as the same writes and removals are made
/// on both.
pub proof fn lemma_contexts_are_deterministic(
    runtime: RuntimeModel,
    payloads: Seq<ModuleGenesis>,
    first: ExternalitiesContext,
    second: ExternalitiesContext,
    first_after: ExternalitiesContext,
    second_after: ExternalitiesContext,
    key: Seq<u8>,
    value: Seq<u8>,
)
    requires
        first.state() == genesis_state(runtime, payloads),
        second.state() == genesis_state(runtime, payloads),
        first_after.state() == state_after_set(first.state(), key, value),
        second_after.state() == state_after_set(second.state(), key, value),
    ensures
        first.state() == second.state(),
        first_after.state() == second_after.state(),
{
}

/// Contexts are isolated. Where one of two contexts that hold the same
/// state is written to, the written one holds the value under the written
/// key, unless the write was refused, and agrees with the untouched one
/// under every other key: the write reaches nothing but its own key in its
/// own context.
pub proof fn lemma_contexts_are_isolated(
    written: ExternalitiesContext,
    written_after: ExternalitiesContext,
    untouched: ExternalitiesContext,
    key: Seq<u8>,
    value: Seq<u8>,
)
    requires
        written.state() == untouched.state(),
        written_after.state() == state_after_set(written.state(), key, value),
    ensures
        !is_child_storage_key(key) ==> written_after.state().contains_pair(key, value),
        is_child_storage_key(key) ==> written_after.state() == untouched.state(),
        forall|other: Seq<u8>|
            other != key ==> (written_after.state().contains_key(other)
                <==> untouched.state().contains_key(other)),
        forall|other: Seq<u8>|
            other != key && untouched.state().contains_key(other) ==> written_after.state()[other]
                == untouched.state()[other],
{
}

} // verus!
