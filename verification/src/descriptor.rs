//! What a module tells the composer about itself.
use vstd::prelude::*;
use crate::keys::{
    distinct_keys, entries_fit, first_oversized_entry, first_repeated_key, StorageEntry,
};

verus! {

/// Identifies a module, independently of where it stands in a runtime.
pub type ModuleId = u64;

/// Identifies a type parameter that modules leave open for the runtime.
pub type ParamId = u64;

/// The cross-cutting capabilities a module may expose to its host runtime.
#[derive(Clone, Copy, Debug, PartialEq, Eq, Structural)]
pub struct Capabilities {
    /// The module accepts dispatchable calls.
    pub call: bool,
    /// The module emits events.
    pub event: bool,
    /// The module keeps persistent storage.
    pub storage: bool,
    /// The module's initial storage can be configured.
    pub genesis: bool,
}

/// A type parameter that a module needs the runtime to bind.
#[derive(Clone, Copy, Debug, PartialEq, Eq, Structural)]
pub struct ParamSpec {
    pub id: ParamId,
    /// Whether the no-op type `()` is an acceptable binding.
    pub unit_allowed: bool,
}

/// The capability descriptor of one module.
#[derive(Clone, Debug, PartialEq, Eq)]
pub struct ModuleDescriptor {
    pub id: ModuleId,
    pub capabilities: Capabilities,
    /// The type parameters the module is generic over.
    pub params: Vec<ParamSpec>,
    /// The genesis payload used when a configuration supplies none.
    pub default_genesis: Vec<StorageEntry>,
}

/// Whether parameter `j` repeats the identifier of an earlier parameter.
pub open spec fn param_seen_before(params: Seq<ParamSpec>, j: int) -> bool {
    exists|i: int| 0 <= i < j && #[trigger] params[i].id == params[j].id
}

/// Whether no parameter identifier is declared twice.
pub open spec fn distinct_params(params: Seq<ParamSpec>) -> bool {
    forall|j: int| 0 <= j < params.len() ==> !#[trigger] param_seen_before(params, j)
}

/// The position of `param` among `params`, if it is declared there.
pub(crate) fn find_param(params: &Vec<ParamSpec>, limit: usize, param: ParamId) -> (found: Option<usize>)
    requires
        limit <= params.len(),
    ensures
        match found {
            Some(j) => {
                &&& j < limit
                &&& params@[j as int].id == param
                &&& forall|k: int| 0 <= k < j ==> (#[trigger] params@[k]).id != param
            },
            None => forall|k: int| 0 <= k < limit ==> (#[trigger] params@[k]).id != param,
        },
{
    let mut j: usize = 0;
    while j < limit
        invariant
            j <= limit <= params.len(),
            forall|k: int| 0 <= k < j ==> (#[trigger] params@[k]).id != param,
        decreases limit - j,
    {
        if params[j].id == param {
            return Some(j);
        }
        j += 1;
    }
    None
}

/// Whether no parameter identifier is declared twice.
pub fn has_distinct_params(params: &Vec<ParamSpec>) -> (ok: bool)
    ensures
        ok == distinct_params(params@),
{
    let mut j: usize = 0;
    while j < params.len()
        invariant
            j <= params.len(),
            forall|k: int| 0 <= k < j ==> !#[trigger] param_seen_before(params@, k),
        decreases params.len() - j,
    {
        match find_param(params, j, params[j].id) {
            Some(i) => {
                assert(params@[i as int].id == params@[j as int].id);
                assert(param_seen_before(params@, j as int));
                return false;
            },
            None => {},
        }
        j += 1;
    }
    true
}

impl ModuleDescriptor {
    /// Whether the descriptor is consistent in itself. A module may expose
    /// any of the four capabilities. What is asked is that no parameter is
    /// declared twice, that the default payload names no key twice and
    /// holds no key or value too long to be stored, and that only a module
    /// with the genesis
    /// capability declares a default payload: the default is what an absent
    /// field of the genesis configuration stands for, and a module without
    /// the capability has no such field.
    pub open spec fn well_formed(&self) -> bool {
        &&& distinct_params(self.params@)
        &&& entries_fit(self.default_genesis@)
        &&& distinct_keys(self.default_genesis@)
        &&& (self.default_genesis@.len() > 0 ==> self.capabilities.genesis)
    }

    /// Whether the module declares the parameter `param`.
    pub open spec fn declares(&self, param: ParamId) -> bool {
        exists|j: int| 0 <= j < self.params@.len() && (#[trigger] self.params@[j]).id == param
    }

    /// Decides [`Self::well_formed`].
    pub fn is_well_formed(&self) -> (ok: bool)
        ensures
            ok == self.well_formed(),
    {
        if !has_distinct_params(&self.params) {
            return false;
        }
        if first_oversized_entry(&self.default_genesis).is_some() {
            return false;
        }
        if first_repeated_key(&self.default_genesis).is_some() {
            return false;
        }
        if self.default_genesis.len() > 0 && !self.capabilities.genesis {
            return false;
        }
        true
    }
}

} // verus!
