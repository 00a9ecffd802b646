//! The composite runtime: the modules as one addressable whole.
//!
//! Composition gives every module a namespace number. The number partitions
//! the storage (it makes the prefix of the module's keys) and tags the
//! module's calls and events in the unified call and event types.
use vstd::prelude::*;
use vstd::bytes::lemma_auto_spec_u64_to_from_le_bytes;
use crate::binding::{find_binding, same_target, target_seen_before, Binding, TypeRef};
use crate::descriptor::{ModuleDescriptor, ModuleId, ParamId};
use crate::keys::{
    code_key, heap_pages_key, is_child_storage_key, lemma_storage_key_injective,
    lemma_storage_key_not_reserved, make_storage_key, namespace_prefix, storage_key,
};
use crate::schema::{
    binding_ok, composable, find_module, lemma_module_position_unique, module_ok, param_bound,
    targets, validate, CompositionError,
};

verus! {

/// What a module's namespace number is taken from.
#[derive(Clone, Copy, Debug, PartialEq, Eq, Structural)]
pub enum Keying {
    /// From the module's identifier: stable when the module list is
    /// reordered.
    ByIdentity,
    /// From the module's position in the list: reordering the list moves
    /// every partition and renumbers every tag.
    ByPosition,
}

impl Default for Keying {
    /// Namespaces follow module identity unless asked otherwise.
    fn default() -> (keying: Keying)
        ensures
            keying == Keying::ByIdentity,
    {
        Keying::ByIdentity
    }
}

/// A call in the unified call type: a module's call, tagged with the
/// module's namespace number.
#[derive(Clone, Debug, PartialEq, Eq)]
pub struct Call {
    pub tag: u64,
    pub payload: Vec<u8>,
}

/// An event in the unified event type: a module's event, tagged with the
/// module's namespace number.
#[derive(Clone, Debug, PartialEq, Eq)]
pub struct Event {
    pub tag: u64,
    pub payload: Vec<u8>,
}

/// The mathematical content of a composite runtime.
pub struct RuntimeModel {
    pub modules: Seq<ModuleDescriptor>,
    pub bindings: Seq<Binding>,
    pub keying: Keying,
}

impl RuntimeModel {
    /// Whether the model is that of a composed runtime.
    pub open spec fn wf(self) -> bool {
        &&& composable(self.modules, self.bindings)
        &&& self.modules.len() <= usize::MAX
    }

    /// The namespace number of the module at position `i`.
    pub open spec fn namespace(self, i: int) -> u64 {
        match self.keying {
            Keying::ByIdentity => self.modules[i].id,
            Keying::ByPosition => i as u64,
        }
    }

    /// The bytes that open every storage key of the module at position `i`.
    pub open spec fn prefix(self, i: int) -> Seq<u8> {
        namespace_prefix(self.namespace(i))
    }

    /// Whether `module` is one of the runtime's modules.
    pub open spec fn contains(self, module: ModuleId) -> bool {
        exists|i: int| 0 <= i < self.modules.len() && (#[trigger] self.modules[i]).id == module
    }

    /// The position of `module` in the runtime.
    pub open spec fn index_of(self, module: ModuleId) -> int
        recommends
            self.contains(module),
    {
        choose|i: int| 0 <= i < self.modules.len() && (#[trigger] self.modules[i]).id == module
    }

    /// The descriptor of `module`.
    pub open spec fn descriptor(self, module: ModuleId) -> ModuleDescriptor
        recommends
            self.contains(module),
    {
        self.modules[self.index_of(module)]
    }

    /// The namespace number of `module`, which tags its calls and events.
    pub open spec fn tag_of(self, module: ModuleId) -> u64
        recommends
            self.contains(module),
    {
        self.namespace(self.index_of(module))
    }

    /// Whether `module` belongs to the runtime and accepts calls.
    pub open spec fn exposes_calls(self, module: ModuleId) -> bool {
        self.contains(module) && self.descriptor(module).capabilities.call
    }

    /// Whether `module` belongs to the runtime and keeps storage.
    pub open spec fn keeps_storage(self, module: ModuleId) -> bool {
        self.contains(module) && self.descriptor(module).capabilities.storage
    }

    /// Whether `module` belongs to the runtime and emits events.
    pub open spec fn exposes_events(self, module: ModuleId) -> bool {
        self.contains(module) && self.descriptor(module).capabilities.event
    }

    /// The module that calls tagged `tag` are dispatched to.
    pub open spec fn call_target(self, tag: u64) -> Option<ModuleId> {
        if exists|m: ModuleId| self.exposes_calls(m) && #[trigger] self.tag_of(m) == tag {
            Some(choose|m: ModuleId| self.exposes_calls(m) && #[trigger] self.tag_of(m) == tag)
        } else {
            None
        }
    }

    /// The module that events tagged `tag` come from.
    pub open spec fn event_origin(self, tag: u64) -> Option<ModuleId> {
        if exists|m: ModuleId| self.exposes_events(m) && #[trigger] self.tag_of(m) == tag {
            Some(choose|m: ModuleId| self.exposes_events(m) && #[trigger] self.tag_of(m) == tag)
        } else {
            None
        }
    }

    /// The modules among the first `n` that take genesis configuration: the
    /// fields of the unified genesis configuration, in module order.
    pub open spec fn configurable_among(self, n: nat) -> Seq<ModuleId>
        decreases n,
    {
        if n == 0 {
            Seq::empty()
        } else if self.modules[n - 1].capabilities.genesis {
            self.configurable_among((n - 1) as nat).push(self.modules[n - 1].id)
        } else {
            self.configurable_among((n - 1) as nat)
        }
    }

    /// Whether the runtime binds `param` of `module` to `ty`.
    pub open spec fn binds(self, module: ModuleId, param: ParamId, ty: TypeRef) -> bool {
        exists|k: int|
            0 <= k < self.bindings.len() && (#[trigger] self.bindings[k]) == (Binding {
                module,
                param,
                ty,
            })
    }

    /// In a composed runtime a module is found where it stands.
    pub proof fn lemma_index_of(self, i: int)
        requires
            self.wf(),
            0 <= i < self.modules.len(),
        ensures
            self.contains(self.modules[i].id),
            self.index_of(self.modules[i].id) == i,
    {
        let module = self.modules[i].id;
        assert(self.modules[i].id == module);
        let found = self.index_of(module);
        assert(module_ok(self.modules, i));
        assert(module_ok(self.modules, found));
        lemma_module_position_unique(self.modules, found, i);
    }

    /// Two modules of a composed runtime never share a namespace number.
    pub proof fn lemma_namespaces_distinct(self, i: int, j: int)
        requires
            self.wf(),
            0 <= i < self.modules.len(),
            0 <= j < self.modules.len(),
            i != j,
        ensures
            self.namespace(i) != self.namespace(j),
    {
        if self.keying == Keying::ByIdentity && self.modules[i].id == self.modules[j].id {
            assert(module_ok(self.modules, i));
            assert(module_ok(self.modules, j));
            lemma_module_position_unique(self.modules, i, j);
        }
    }

    /// The storage prefixes of a composed runtime are pairwise distinct, and
    /// so are the partitions under them: no key of one module is a key of
    /// another.
    pub proof fn lemma_prefixes_distinct(self, i: int, j: int)
        requires
            self.wf(),
            0 <= i < self.modules.len(),
            0 <= j < self.modules.len(),
            i != j,
        ensures
            self.prefix(i) != self.prefix(j),
            self.prefix(i).len() == self.prefix(j).len(),
            forall|a: Seq<u8>, b: Seq<u8>| #[trigger]
                storage_key(self.namespace(i), a) != #[trigger] storage_key(self.namespace(j), b),
    {
        self.lemma_namespaces_distinct(i, j);
        lemma_auto_spec_u64_to_from_le_bytes();
        let empty = Seq::<u8>::empty();
        assert(storage_key(self.namespace(i), empty) =~= self.prefix(i));
        assert(storage_key(self.namespace(j), empty) =~= self.prefix(j));
        if self.prefix(i) == self.prefix(j) {
            lemma_storage_key_injective(self.namespace(i), empty, self.namespace(j), empty);
        }
        assert forall|a: Seq<u8>, b: Seq<u8>| #[trigger]
            storage_key(self.namespace(i), a) != #[trigger] storage_key(self.namespace(j), b) by {
            if storage_key(self.namespace(i), a) == storage_key(self.namespace(j), b) {
                lemma_storage_key_injective(self.namespace(i), a, self.namespace(j), b);
            }
        }
    }

    /// Dispatch is unambiguous: two modules of a composed runtime with one
    /// tag are one module.
    pub proof fn lemma_tags_distinct(self, m1: ModuleId, m2: ModuleId)
        requires
            self.wf(),
            self.contains(m1),
            self.contains(m2),
            self.tag_of(m1) == self.tag_of(m2),
        ensures
            m1 == m2,
    {
        let i = self.index_of(m1);
        let j = self.index_of(m2);
        if i != j {
            self.lemma_namespaces_distinct(i, j);
        }
    }

    /// Partitions are isolated: a key of one module is no key of another
    /// module and none of the keys the execution engine keeps for itself.
    pub proof fn lemma_partitions_are_isolated(
        self,
        m1: ModuleId,
        item1: Seq<u8>,
        m2: ModuleId,
        item2: Seq<u8>,
    )
        requires
            self.wf(),
            self.contains(m1),
            self.contains(m2),
            m1 != m2,
        ensures
            storage_key(self.tag_of(m1), item1) != storage_key(self.tag_of(m2), item2),
            !is_child_storage_key(storage_key(self.tag_of(m1), item1)),
            storage_key(self.tag_of(m1), item1) != heap_pages_key(),
            storage_key(self.tag_of(m1), item1) != code_key(),
    {
        lemma_storage_key_not_reserved(self.tag_of(m1), item1);
        if storage_key(self.tag_of(m1), item1) == storage_key(self.tag_of(m2), item2) {
            lemma_storage_key_injective(self.tag_of(m1), item1, self.tag_of(m2), item2);
            self.lemma_tags_distinct(m1, m2);
        }
    }

    /// The module at position `i` is the only one with its tag.
    pub proof fn lemma_sole_owner_of_tag(self, i: int)
        requires
            self.wf(),
            0 <= i < self.modules.len(),
        ensures
            forall|m: ModuleId|
                self.contains(m) && #[trigger] self.tag_of(m) == self.namespace(i)
                    ==> m == self.modules[i].id,
    {
        assert forall|m: ModuleId|
            self.contains(m) && #[trigger] self.tag_of(m) == self.namespace(i) implies m
            == self.modules[i].id by {
            self.lemma_index_of(i);
            self.lemma_tags_distinct(m, self.modules[i].id);
        }
    }

    /// A call wrapped for a module is dispatched to that module, whatever
    /// else the runtime holds.
    pub proof fn lemma_call_reaches_its_module(self, module: ModuleId)
        requires
            self.wf(),
            self.exposes_calls(module),
        ensures
            self.call_target(self.tag_of(module)) == Some(module),
    {
        let tag = self.tag_of(module);
        let found = choose|m: ModuleId| self.exposes_calls(m) && #[trigger] self.tag_of(m) == tag;
        self.lemma_tags_distinct(found, module);
    }

    /// An event wrapped for a module is traced back to that module.
    pub proof fn lemma_event_names_its_module(self, module: ModuleId)
        requires
            self.wf(),
            self.exposes_events(module),
        ensures
            self.event_origin(self.tag_of(module)) == Some(module),
    {
        let tag = self.tag_of(module);
        let found = choose|m: ModuleId| self.exposes_events(m) && #[trigger] self.tag_of(m) == tag;
        self.lemma_tags_distinct(found, module);
    }

    /// Under identity keying a module keeps its namespace, and with it its
    /// storage prefix and its tag, in whatever runtime and at whatever
    /// position it stands.
    pub proof fn lemma_identity_keying_is_stable(self, other: RuntimeModel, module: ModuleId)
        requires
            self.wf(),
            other.wf(),
            self.keying == Keying::ByIdentity,
            other.keying == Keying::ByIdentity,
            self.contains(module),
            other.contains(module),
        ensures
            self.tag_of(module) == module,
            self.tag_of(module) == other.tag_of(module),
            self.prefix(self.index_of(module)) == other.prefix(other.index_of(module)),
    {
    }

    /// A composed runtime gives every parameter exactly one type.
    pub proof fn lemma_binding_unique(
        self,
        module: ModuleId,
        param: ParamId,
        ty1: TypeRef,
        ty2: TypeRef,
    )
        requires
            self.wf(),
            self.binds(module, param, ty1),
            self.binds(module, param, ty2),
        ensures
            ty1 == ty2,
    {
        let b1 = Binding { module, param, ty: ty1 };
        let b2 = Binding { module, param, ty: ty2 };
        let k1 = choose|k: int| 0 <= k < self.bindings.len() && (#[trigger] self.bindings[k]) == b1;
        let k2 = choose|k: int| 0 <= k < self.bindings.len() && (#[trigger] self.bindings[k]) == b2;
        assert(binding_ok(self.modules, self.bindings, k1));
        assert(binding_ok(self.modules, self.bindings, k2));
        if k1 < k2 {
            assert(same_target(self.bindings[k1], self.bindings[k2]));
            assert(target_seen_before(self.bindings, k2));
        } else if k2 < k1 {
            assert(same_target(self.bindings[k2], self.bindings[k1]));
            assert(target_seen_before(self.bindings, k1));
        }
    }
}

/// A runtime composed of modules whose parameters are all bound.
#[derive(Debug, PartialEq, Eq)]
pub struct CompositeRuntime {
    modules: Vec<ModuleDescriptor>,
    bindings: Vec<Binding>,
    keying: Keying,
}

impl View for CompositeRuntime {
    type V = RuntimeModel;

    closed spec fn view(&self) -> RuntimeModel {
        RuntimeModel { modules: self.modules@, bindings: self.bindings@, keying: self.keying }
    }
}

impl CompositeRuntime {
    /// Only composed runtimes exist.
    #[verifier::type_invariant]
    pub open spec fn inv(self) -> bool {
        self@.wf()
    }

    /// Composes `modules`, in the order given, into a runtime whose open
    /// parameters `bindings` close, or reports the first defect of the
    /// description.
    pub fn compose(modules: Vec<ModuleDescriptor>, bindings: Vec<Binding>, keying: Keying) -> (result:
        Result<CompositeRuntime, CompositionError>)
        ensures
            result is Ok <==> composable(modules@, bindings@),
            match result {
                Ok(runtime) => {
                    &&& runtime@.wf()
                    &&& runtime@.modules == modules@
                    &&& runtime@.bindings == bindings@
                    &&& runtime@.keying == keying
                },
                Err(e) => e.is_first_defect_of(modules@, bindings@),
            },
    {
        match validate(&modules, &bindings) {
            Ok(_) => {
                assert(modules@.len() == modules.len());
                Ok(CompositeRuntime { modules, bindings, keying })
            },
            Err(e) => Err(e),
        }
    }

    /// The modules, in composition order.
    pub fn modules(&self) -> (modules: &Vec<ModuleDescriptor>)
        ensures
            modules@ == self@.modules,
            self@.wf(),
    {
        proof {
            use_type_invariant(self);
        }
        &self.modules
    }

    /// The binding table.
    pub fn bindings(&self) -> (bindings: &Vec<Binding>)
        ensures
            bindings@ == self@.bindings,
            self@.wf(),
    {
        proof {
            use_type_invariant(self);
        }
        &self.bindings
    }

    /// What namespace numbers are taken from.
    pub fn keying(&self) -> (keying: Keying)
        ensures
            keying == self@.keying,
    {
        self.keying
    }

    /// Where `module` stands in the runtime.
    pub fn position(&self, module: ModuleId) -> (found: Option<usize>)
        ensures
            match found {
                Some(i) => self@.contains(module) && i == self@.index_of(module),
                None => !self@.contains(module),
            },
    {
        proof {
            use_type_invariant(self);
        }
        let found = find_module(&self.modules, self.modules.len(), module);
        proof {
            if let Some(i) = found {
                self@.lemma_index_of(i as int);
            }
        }
        found
    }

    /// The namespace number of `module`: the number its storage prefix is
    /// made of and its calls and events are tagged with.
    pub fn namespace_of(&self, module: ModuleId) -> (namespace: Option<u64>)
        ensures
            match namespace {
                Some(n) => self@.contains(module) && n == self@.tag_of(module),
                None => !self@.contains(module),
            },
    {
        match self.position(module) {
            Some(i) => Some(self.namespace_at(i)),
            None => None,
        }
    }

    /// The namespace number of the module at position `i`.
    pub(crate) fn namespace_at(&self, i: usize) -> (namespace: u64)
        requires
            i < self@.modules.len(),
        ensures
            namespace == self@.namespace(i as int),
    {
        match self.keying {
            Keying::ByIdentity => self.modules[i].id,
            Keying::ByPosition => i as u64,
        }
    }

    /// The position of the module whose namespace number is `namespace`.
    fn position_of_namespace(&self, namespace: u64) -> (found: Option<usize>)
        ensures
            match found {
                Some(i) => i < self@.modules.len() && self@.namespace(i as int) == namespace,
                None => forall|i: int|
                    0 <= i < self@.modules.len() ==> #[trigger] self@.namespace(i) != namespace,
            },
    {
        match self.keying {
            Keying::ByIdentity => find_module(&self.modules, self.modules.len(), namespace),
            Keying::ByPosition => {
                if namespace < self.modules.len() as u64 {
                    Some(namespace as usize)
                } else {
                    None
                }
            },
        }
    }

    /// The bytes that open every storage key of `module`.
    pub fn storage_prefix(&self, module: ModuleId) -> (prefix: Option<Vec<u8>>)
        ensures
            match prefix {
                Some(bytes) => self@.contains(module) && bytes@ == self@.prefix(
                    self@.index_of(module),
                ),
                None => !self@.contains(module),
            },
    {
        match self.position(module) {
            Some(i) => {
                let empty: Vec<u8> = Vec::new();
                let bytes = make_storage_key(self.namespace_at(i), &empty);
                assert(bytes@ =~= self@.prefix(i as int));
                Some(bytes)
            },
            None => None,
        }
    }

    /// The storage prefix table: every module with the bytes that open its
    /// keys, in module order.
    pub fn prefix_table(&self) -> (table: Vec<(ModuleId, Vec<u8>)>)
        ensures
            table@.len() == self@.modules.len(),
            forall|i: int|
                0 <= i < table@.len() ==> (#[trigger] table@[i]).0 == self@.modules[i].id
                    && table@[i].1@ == self@.prefix(i),
    {
        let mut table: Vec<(ModuleId, Vec<u8>)> = Vec::new();
        let empty: Vec<u8> = Vec::new();
        let mut i: usize = 0;
        while i < self.modules.len()
            invariant
                i <= self.modules.len(),
                empty@.len() == 0,
                table@.len() == i,
                forall|h: int|
                    0 <= h < i ==> (#[trigger] table@[h]).0 == self@.modules[h].id && table@[h].1@
                        == self@.prefix(h),
            decreases self.modules.len() - i,
        {
            let bytes = make_storage_key(self.namespace_at(i), &empty);
            assert(bytes@ =~= self@.prefix(i as int));
            table.push((self.modules[i].id, bytes));
            i += 1;
        }
        table
    }

    /// The modules that take genesis configuration: the fields of the
    /// unified genesis configuration, in module order.
    pub fn configurable_modules(&self) -> (fields: Vec<ModuleId>)
        ensures
            fields@ == self@.configurable_among(self@.modules.len()),
    {
        let mut fields: Vec<ModuleId> = Vec::new();
        let mut i: usize = 0;
        while i < self.modules.len()
            invariant
                i <= self.modules.len(),
                fields@ == self@.configurable_among(i as nat),
            decreases self.modules.len() - i,
        {
            if self.modules[i].capabilities.genesis {
                fields.push(self.modules[i].id);
            }
            i += 1;
        }
        fields
    }

    /// The flat storage key of item `item` of `module`, for a module that
    /// keeps storage.
    pub fn item_key(&self, module: ModuleId, item: &Vec<u8>) -> (key: Option<Vec<u8>>)
        ensures
            match key {
                Some(bytes) => self@.keeps_storage(module) && bytes@ == storage_key(
                    self@.tag_of(module),
                    item@,
                ),
                None => !self@.keeps_storage(module),
            },
    {
        match self.position(module) {
            Some(i) => {
                if self.modules[i].capabilities.storage {
                    Some(make_storage_key(self.namespace_at(i), item))
                } else {
                    None
                }
            },
            None => None,
        }
    }

    /// The type that `param` of `module` is bound to.
    pub fn resolve(&self, module: ModuleId, param: ParamId) -> (ty: Option<TypeRef>)
        ensures
            match ty {
                Some(t) => self@.binds(module, param, t),
                None => forall|t: TypeRef| !self@.binds(module, param, t),
            },
            ty is Some <==> self@.contains(module) && self@.descriptor(module).declares(param),
    {
        proof {
            use_type_invariant(self);
        }
        let found = find_binding(&self.bindings, self.bindings.len(), module, param);
        match found {
            Some(k) => {
                let ty = self.bindings[k].ty;
                proof {
                    let b = self.bindings@[k as int];
                    assert(b == Binding { module, param, ty });
                    assert(binding_ok(self@.modules, self@.bindings, k as int));
                    let (i, j) = choose|i: int, j: int| #[trigger] targets(b, self@.modules, i, j);
                    assert(targets(b, self@.modules, i, j));
                    self@.lemma_index_of(i);
                    assert(self@.modules[i].params@[j].id == param);
                }
                Some(ty)
            },
            None => {
                proof {
                    assert forall|t: TypeRef| !self@.binds(module, param, t) by {
                        if self@.binds(module, param, t) {
                            let k = choose|k: int|
                                0 <= k < self@.bindings.len() && (#[trigger] self@.bindings[k])
                                    == (Binding { module, param, ty: t });
                            assert(self@.bindings[k].module == module);
                        }
                    }
                    if self@.contains(module) && self@.descriptor(module).declares(param) {
                        let i = self@.index_of(module);
                        let j = choose|j: int|
                            0 <= j < self@.modules[i].params@.len() && (
                            #[trigger] self@.modules[i].params@[j]).id == param;
                        assert(param_bound(self@.modules, self@.bindings, i, j));
                        let k = choose|k: int|
                            0 <= k < self@.bindings.len() && targets(
                                #[trigger] self@.bindings[k],
                                self@.modules,
                                i,
                                j,
                            );
                        assert(self@.bindings[k].module == module);
                    }
                }
                None
            },
        }
    }

    /// The tag under which the calls of `module` are dispatched.
    pub fn dispatch_tag(&self, module: ModuleId) -> (tag: Option<u64>)
        ensures
            match tag {
                Some(t) => self@.exposes_calls(module) && t == self@.tag_of(module),
                None => !self@.exposes_calls(module),
            },
    {
        match self.position(module) {
            Some(i) => {
                if self.modules[i].capabilities.call {
                    Some(self.namespace_at(i))
                } else {
                    None
                }
            },
            None => None,
        }
    }

    /// Wraps a call of `module` into the unified call type.
    pub fn wrap_call(&self, module: ModuleId, payload: Vec<u8>) -> (call: Option<Call>)
        ensures
            match call {
                Some(c) => {
                    &&& self@.exposes_calls(module)
                    &&& c.tag == self@.tag_of(module)
                    &&& c.payload == payload
                },
                None => !self@.exposes_calls(module),
            },
    {
        match self.dispatch_tag(module) {
            Some(tag) => Some(Call { tag, payload }),
            None => None,
        }
    }

    /// The module that a call is to be dispatched to.
    pub fn route(&self, call: &Call) -> (target: Option<ModuleId>)
        ensures
            target == self@.call_target(call.tag),
            match target {
                Some(m) => self@.exposes_calls(m) && self@.tag_of(m) == call.tag,
                None => forall|m: ModuleId|
                    self@.exposes_calls(m) ==> #[trigger] self@.tag_of(m) != call.tag,
            },
    {
        proof {
            use_type_invariant(self);
        }
        match self.position_of_namespace(call.tag) {
            Some(i) => {
                proof {
                    self@.lemma_index_of(i as int);
                    self@.lemma_sole_owner_of_tag(i as int);
                    if self@.modules[i as int].capabilities.call {
                        self@.lemma_call_reaches_its_module(self@.modules[i as int].id);
                    }
                }
                if self.modules[i].capabilities.call {
                    Some(self.modules[i].id)
                } else {
                    None
                }
            },
            None => None,
        }
    }

    /// Wraps an event of `module` into the unified event type.
    pub fn wrap_event(&self, module: ModuleId, payload: Vec<u8>) -> (event: Option<Event>)
        ensures
            match event {
                Some(e) => {
                    &&& self@.exposes_events(module)
                    &&& e.tag == self@.tag_of(module)
                    &&& e.payload == payload
                },
                None => !self@.exposes_events(module),
            },
    {
        match self.position(module) {
            Some(i) => {
                if self.modules[i].capabilities.event {
                    Some(Event { tag: self.namespace_at(i), payload })
                } else {
                    None
                }
            },
            None => None,
        }
    }

    /// The module that emitted an event.
    pub fn event_source(&self, event: &Event) -> (source: Option<ModuleId>)
        ensures
            source == self@.event_origin(event.tag),
            match source {
                Some(m) => self@.exposes_events(m) && self@.tag_of(m) == event.tag,
                None => forall|m: ModuleId|
                    self@.exposes_events(m) ==> #[trigger] self@.tag_of(m) != event.tag,
            },
    {
        proof {
            use_type_invariant(self);
        }
        match self.position_of_namespace(event.tag) {
            Some(i) => {
                proof {
                    self@.lemma_index_of(i as int);
                    self@.lemma_sole_owner_of_tag(i as int);
                    if self@.modules[i as int].capabilities.event {
                        self@.lemma_event_names_its_module(self@.modules[i as int].id);
                    }
                }
                if self.modules[i].capabilities.event {
                    Some(self.modules[i].id)
                } else {
                    None
                }
            },
            None => None,
        }
    }
}

} // verus!
