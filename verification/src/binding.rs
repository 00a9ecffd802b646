//! The table that closes the modules' open type parameters.
use vstd::prelude::*;
use crate::descriptor::{ModuleId, ParamId};

verus! {

/// The types that composing a runtime brings into being.
#[derive(Clone, Copy, Debug, PartialEq, Eq, Structural)]
pub enum CompositeKind {
    /// The union of every module's calls.
    Call,
    /// The union of every module's events.
    Event,
    /// Where a call comes from.
    Origin,
    /// The description of the modules the runtime is made of.
    Metadata,
}

/// A concrete type that a parameter can be bound to.
#[derive(Clone, Copy, Debug, PartialEq, Eq, Structural)]
pub enum TypeRef {
    /// The no-op type `()`, for a parameter whose behaviour is switched off.
    Unit,
    /// A type known to the runtime under a stable number.
    Concrete(u64),
    /// A type that stands for a constant value.
    Constant(u64),
    /// One of the types the composition itself produces.
    Composite(CompositeKind),
}

/// Binds parameter `param` of module `module` to the type `ty`.
#[derive(Clone, Copy, Debug, PartialEq, Eq, Structural)]
pub struct Binding {
    pub module: ModuleId,
    pub param: ParamId,
    pub ty: TypeRef,
}

/// Whether two bindings bind the same parameter of the same module.
pub open spec fn same_target(a: Binding, b: Binding) -> bool {
    a.module == b.module && a.param == b.param
}

/// Whether two bindings give one parameter two different types.
pub open spec fn conflicts(a: Binding, b: Binding) -> bool {
    a.param == b.param && a.ty != b.ty
}

/// Whether an earlier binding has the same target as binding `k`.
pub open spec fn target_seen_before(bindings: Seq<Binding>, k: int) -> bool {
    exists|h: int| 0 <= h < k && same_target(#[trigger] bindings[h], bindings[k])
}

/// Whether an earlier binding conflicts with binding `k`.
pub open spec fn conflict_before(bindings: Seq<Binding>, k: int) -> bool {
    exists|h: int| 0 <= h < k && conflicts(#[trigger] bindings[h], bindings[k])
}

/// The first of the first `limit` bindings that binds `param` of `module`.
pub(crate) fn find_binding(bindings: &Vec<Binding>, limit: usize, module: ModuleId, param: ParamId) -> (found:
    Option<usize>)
    requires
        limit <= bindings.len(),
    ensures
        match found {
            Some(h) => {
                &&& h < limit
                &&& bindings@[h as int].module == module
                &&& bindings@[h as int].param == param
                &&& forall|g: int|
                    0 <= g < h ==> !((#[trigger] bindings@[g]).module == module && bindings@[g].param
                        == param)
            },
            None => forall|g: int|
                0 <= g < limit ==> !((#[trigger] bindings@[g]).module == module && bindings@[g].param
                    == param),
        },
{
    let mut h: usize = 0;
    while h < limit
        invariant
            h <= limit <= bindings.len(),
            forall|g: int|
                0 <= g < h ==> !((#[trigger] bindings@[g]).module == module && bindings@[g].param
                    == param),
        decreases limit - h,
    {
        if bindings[h].module == module && bindings[h].param == param {
            return Some(h);
        }
        h += 1;
    }
    None
}

/// The first of the first `limit` bindings that gives `param` another type
/// than `ty`.
pub(crate) fn find_conflict(bindings: &Vec<Binding>, limit: usize, param: ParamId, ty: TypeRef) -> (found:
    Option<usize>)
    requires
        limit <= bindings.len(),
    ensures
        match found {
            Some(h) => {
                &&& h < limit
                &&& bindings@[h as int].param == param
                &&& bindings@[h as int].ty != ty
                &&& forall|g: int|
                    0 <= g < h ==> !((#[trigger] bindings@[g]).param == param && bindings@[g].ty != ty)
            },
            None => forall|g: int|
                0 <= g < limit ==> !((#[trigger] bindings@[g]).param == param && bindings@[g].ty != ty),
        },
{
    let mut h: usize = 0;
    while h < limit
        invariant
            h <= limit <= bindings.len(),
            forall|g: int|
                0 <= g < h ==> !((#[trigger] bindings@[g]).param == param && bindings@[g].ty != ty),
        decreases limit - h,
    {
        if bindings[h].param == param && bindings[h].ty != ty {
            return Some(h);
        }
        h += 1;
    }
    None
}

} // verus!
