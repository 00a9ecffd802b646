//! When a list of modules and a table of bindings describe a runtime, and
//! what is wrong with them when they do not.
//!
//! A parameter identifier names one type of the runtime. Every module that
//! declares the parameter needs a binding of its own for it, and all those
//! bindings must give it the same type: two modules that ask for different
//! types under one identifier cannot stand in one runtime.
//!
//! The description is checked in three passes, each in list order: the
//! modules, then the bindings, then the parameters that are left without a
//! binding. The first defect found is the one reported.
use vstd::prelude::*;
use crate::binding::{
    conflict_before, conflicts, find_binding, find_conflict, same_target, target_seen_before,
    Binding, TypeRef,
};
use crate::descriptor::{
    distinct_params, find_param, param_seen_before, ModuleDescriptor, ModuleId, ParamId,
};

verus! {

/// Whether module `i` repeats the identifier of an earlier module.
pub open spec fn id_seen_before(modules: Seq<ModuleDescriptor>, i: int) -> bool {
    exists|h: int| 0 <= h < i && (#[trigger] modules[h]).id == modules[i].id
}

/// Whether module `i` is acceptable where it stands.
pub open spec fn module_ok(modules: Seq<ModuleDescriptor>, i: int) -> bool {
    !id_seen_before(modules, i) && modules[i].well_formed()
}

/// Whether every module is well formed and no identifier is used twice.
pub open spec fn modules_ok(modules: Seq<ModuleDescriptor>) -> bool {
    forall|i: int| 0 <= i < modules.len() ==> #[trigger] module_ok(modules, i)
}

/// Whether `b` binds parameter `j` of module `i`.
pub open spec fn targets(b: Binding, modules: Seq<ModuleDescriptor>, i: int, j: int) -> bool {
    &&& 0 <= i < modules.len()
    &&& 0 <= j < modules[i].params@.len()
    &&& modules[i].id == b.module
    &&& modules[i].params@[j].id == b.param
}

/// Whether some module declares the parameter that `b` binds.
pub open spec fn expected(modules: Seq<ModuleDescriptor>, b: Binding) -> bool {
    exists|i: int, j: int| #[trigger] targets(b, modules, i, j)
}

/// Whether `b` binds the no-op type to a parameter that does not permit it.
pub open spec fn unit_refused(modules: Seq<ModuleDescriptor>, b: Binding) -> bool {
    b.ty == TypeRef::Unit && exists|i: int, j: int|
        #[trigger] targets(b, modules, i, j) && !modules[i].params@[j].unit_allowed
}

/// Whether binding `k` is acceptable where it stands: it binds a declared
/// parameter that no earlier binding bound, binds the no-op type only where
/// permitted, and agrees with every earlier binding of the same parameter.
pub open spec fn binding_ok(modules: Seq<ModuleDescriptor>, bindings: Seq<Binding>, k: int) -> bool {
    &&& expected(modules, bindings[k])
    &&& !target_seen_before(bindings, k)
    &&& !unit_refused(modules, bindings[k])
    &&& !conflict_before(bindings, k)
}

/// Whether every binding is acceptable.
pub open spec fn bindings_ok(modules: Seq<ModuleDescriptor>, bindings: Seq<Binding>) -> bool {
    forall|k: int| 0 <= k < bindings.len() ==> #[trigger] binding_ok(modules, bindings, k)
}

/// Whether some binding binds parameter `j` of module `i`.
pub open spec fn param_bound(
    modules: Seq<ModuleDescriptor>,
    bindings: Seq<Binding>,
    i: int,
    j: int,
) -> bool {
    exists|k: int| 0 <= k < bindings.len() && targets(#[trigger] bindings[k], modules, i, j)
}

/// Whether `(a, b)` names a declared parameter that comes before parameter
/// `j` of module `i`.
pub open spec fn comes_before(modules: Seq<ModuleDescriptor>, a: int, b: int, i: int, j: int) -> bool {
    ||| (0 <= a < i && a < modules.len() && 0 <= b < modules[a].params@.len())
    ||| (a == i && 0 <= b < j)
}

/// Whether every declared parameter has a binding.
pub open spec fn all_bound(modules: Seq<ModuleDescriptor>, bindings: Seq<Binding>) -> bool {
    forall|i: int, j: int|
        0 <= i < modules.len() && 0 <= j < modules[i].params@.len() ==> #[trigger] param_bound(
            modules,
            bindings,
            i,
            j,
        )
}

/// Whether the modules and bindings describe a runtime: the modules are
/// acceptable, and the bindings give every declared parameter exactly one
/// type and bind nothing else.
pub open spec fn composable(modules: Seq<ModuleDescriptor>, bindings: Seq<Binding>) -> bool {
    &&& modules_ok(modules)
    &&& bindings_ok(modules, bindings)
    &&& all_bound(modules, bindings)
}

/// Why a list of modules and a table of bindings do not describe a runtime.
#[derive(Clone, Copy, Debug, PartialEq, Eq, Structural)]
pub enum CompositionError {
    /// The module at `index` repeats the identifier of an earlier module.
    DuplicateModule { index: usize, module: ModuleId },
    /// The descriptor at `index` is not well formed.
    MalformedModule { index: usize, module: ModuleId },
    /// The binding at `index` binds a parameter that no module declares.
    UnexpectedBinding { index: usize, module: ModuleId, param: ParamId },
    /// The binding at `index` binds a parameter that an earlier binding
    /// already bound.
    DuplicateBinding { index: usize, module: ModuleId, param: ParamId },
    /// The binding at `index` binds the no-op type to a parameter that does
    /// not permit it.
    UnitNotPermitted { index: usize, module: ModuleId, param: ParamId },
    /// The binding at `index`, made for `module`, gives `param` another type
    /// than the binding at `earlier`, which `earlier_module` made for the
    /// same parameter.
    IncompatibleBinding {
        index: usize,
        earlier: usize,
        module: ModuleId,
        earlier_module: ModuleId,
        param: ParamId,
    },
    /// Parameter number `param_index` of the module at `module_index` has no
    /// binding.
    MissingBinding { module_index: usize, param_index: usize, module: ModuleId, param: ParamId },
}

impl CompositionError {
    /// Whether `self` is the first defect of the description: everything
    /// checked before the place it names is acceptable, and that place has
    /// the defect it names and none that is checked before it.
    pub open spec fn is_first_defect_of(
        self,
        modules: Seq<ModuleDescriptor>,
        bindings: Seq<Binding>,
    ) -> bool {
        match self {
            CompositionError::DuplicateModule { index, module } => {
                &&& index < modules.len()
                &&& forall|i: int| 0 <= i < index ==> #[trigger] module_ok(modules, i)
                &&& id_seen_before(modules, index as int)
                &&& module == modules[index as int].id
            },
            CompositionError::MalformedModule { index, module } => {
                &&& index < modules.len()
                &&& forall|i: int| 0 <= i < index ==> #[trigger] module_ok(modules, i)
                &&& !id_seen_before(modules, index as int)
                &&& !modules[index as int].well_formed()
                &&& module == modules[index as int].id
            },
            CompositionError::UnexpectedBinding { index, module, param } => {
                &&& modules_ok(modules)
                &&& index < bindings.len()
                &&& forall|k: int| 0 <= k < index ==> #[trigger] binding_ok(modules, bindings, k)
                &&& !expected(modules, bindings[index as int])
                &&& module == bindings[index as int].module
                &&& param == bindings[index as int].param
            },
            CompositionError::DuplicateBinding { index, module, param } => {
                &&& modules_ok(modules)
                &&& index < bindings.len()
                &&& forall|k: int| 0 <= k < index ==> #[trigger] binding_ok(modules, bindings, k)
                &&& expected(modules, bindings[index as int])
                &&& target_seen_before(bindings, index as int)
                &&& module == bindings[index as int].module
                &&& param == bindings[index as int].param
            },
            CompositionError::UnitNotPermitted { index, module, param } => {
                &&& modules_ok(modules)
                &&& index < bindings.len()
                &&& forall|k: int| 0 <= k < index ==> #[trigger] binding_ok(modules, bindings, k)
                &&& expected(modules, bindings[index as int])
                &&& !target_seen_before(bindings, index as int)
                &&& unit_refused(modules, bindings[index as int])
                &&& module == bindings[index as int].module
                &&& param == bindings[index as int].param
            },
            CompositionError::IncompatibleBinding {
                index,
                earlier,
                module,
                earlier_module,
                param,
            } => {
                &&& modules_ok(modules)
                &&& index < bindings.len()
                &&& forall|k: int| 0 <= k < index ==> #[trigger] binding_ok(modules, bindings, k)
                &&& expected(modules, bindings[index as int])
                &&& !target_seen_before(bindings, index as int)
                &&& !unit_refused(modules, bindings[index as int])
                &&& earlier < index
                &&& conflicts(bindings[earlier as int], bindings[index as int])
                &&& forall|h: int|
                    0 <= h < earlier ==> !conflicts(#[trigger] bindings[h], bindings[index as int])
                &&& module == bindings[index as int].module
                &&& earlier_module == bindings[earlier as int].module
                &&& param == bindings[index as int].param
            },
            CompositionError::MissingBinding { module_index, param_index, module, param } => {
                &&& modules_ok(modules)
                &&& bindings_ok(modules, bindings)
                &&& module_index < modules.len()
                &&& param_index < modules[module_index as int].params@.len()
                &&& forall|a: int, b: int|
                    comes_before(modules, a, b, module_index as int, param_index as int)
                        ==> #[trigger] param_bound(modules, bindings, a, b)
                &&& !param_bound(modules, bindings, module_index as int, param_index as int)
                &&& module == modules[module_index as int].id
                &&& param == modules[module_index as int].params@[param_index as int].id
            },
        }
    }
}

/// Two acceptable modules with one identifier stand at one position.
pub proof fn lemma_module_position_unique(modules: Seq<ModuleDescriptor>, a: int, b: int)
    requires
        0 <= a < modules.len(),
        0 <= b < modules.len(),
        module_ok(modules, a),
        module_ok(modules, b),
        modules[a].id == modules[b].id,
    ensures
        a == b,
{
    if a < b {
        assert(modules[a].id == modules[b].id);
        assert(id_seen_before(modules, b));
    } else if b < a {
        assert(modules[b].id == modules[a].id);
        assert(id_seen_before(modules, a));
    }
}

/// Among distinct parameters, one identifier stands at one position.
pub proof fn lemma_param_position_unique(m: ModuleDescriptor, a: int, b: int)
    requires
        0 <= a < m.params@.len(),
        0 <= b < m.params@.len(),
        distinct_params(m.params@),
        m.params@[a].id == m.params@[b].id,
    ensures
        a == b,
{
    if a < b {
        assert(m.params@[a].id == m.params@[b].id);
        assert(param_seen_before(m.params@, b));
    } else if b < a {
        assert(m.params@[b].id == m.params@[a].id);
        assert(param_seen_before(m.params@, a));
    }
}

/// Among acceptable modules, a binding has at most one target.
pub proof fn lemma_target_unique(
    modules: Seq<ModuleDescriptor>,
    b: Binding,
    i1: int,
    j1: int,
    i2: int,
    j2: int,
)
    requires
        modules_ok(modules),
        targets(b, modules, i1, j1),
        targets(b, modules, i2, j2),
    ensures
        i1 == i2,
        j1 == j2,
{
    assert(module_ok(modules, i1));
    assert(module_ok(modules, i2));
    lemma_module_position_unique(modules, i1, i2);
    lemma_param_position_unique(modules[i1], j1, j2);
}

/// A description with a defect is not composable.
pub proof fn lemma_defect_excludes_composable(
    e: CompositionError,
    modules: Seq<ModuleDescriptor>,
    bindings: Seq<Binding>,
)
    requires
        e.is_first_defect_of(modules, bindings),
    ensures
        !composable(modules, bindings),
{
    match e {
        CompositionError::DuplicateModule { index, module } => {
            assert(!module_ok(modules, index as int));
        },
        CompositionError::MalformedModule { index, module } => {
            assert(!module_ok(modules, index as int));
        },
        CompositionError::UnexpectedBinding { index, module, param } => {
            assert(!binding_ok(modules, bindings, index as int));
        },
        CompositionError::DuplicateBinding { index, module, param } => {
            assert(!binding_ok(modules, bindings, index as int));
        },
        CompositionError::UnitNotPermitted { index, module, param } => {
            assert(!binding_ok(modules, bindings, index as int));
        },
        CompositionError::IncompatibleBinding { index, earlier, .. } => {
            assert(conflicts(bindings[earlier as int], bindings[index as int]));
            assert(conflict_before(bindings, index as int));
            assert(!binding_ok(modules, bindings, index as int));
        },
        CompositionError::MissingBinding { module_index, param_index, module, param } => {
            assert(!param_bound(modules, bindings, module_index as int, param_index as int));
        },
    }
}

/// Every binding of a composable description is required: with any one of
/// them taken out, the parameter it bound has no binding left, so what
/// remains is not composable.
pub proof fn lemma_removed_binding_is_missed(
    modules: Seq<ModuleDescriptor>,
    bindings: Seq<Binding>,
    k: int,
)
    requires
        composable(modules, bindings),
        0 <= k < bindings.len(),
    ensures
        forall|i: int, j: int| #[trigger]
            targets(bindings[k], modules, i, j) ==> !param_bound(modules, bindings.remove(k), i, j),
        !all_bound(modules, bindings.remove(k)),
        !composable(modules, bindings.remove(k)),
{
    let rest = bindings.remove(k);
    assert(binding_ok(modules, bindings, k));
    assert forall|i: int, j: int| #[trigger] targets(bindings[k], modules, i, j) implies !param_bound(
        modules,
        rest,
        i,
        j,
    ) by {
        if param_bound(modules, rest, i, j) {
            let h = choose|h: int| 0 <= h < rest.len() && targets(#[trigger] rest[h], modules, i, j);
            let q = if h < k { h } else { h + 1 };
            assert(rest[h] == bindings[q]);
            assert(same_target(bindings[q], bindings[k]));
            if q < k {
                assert(target_seen_before(bindings, k));
            } else {
                assert(same_target(bindings[k], bindings[q]));
                assert(target_seen_before(bindings, q));
                assert(binding_ok(modules, bindings, q));
            }
        }
    }
    let (i, j) = choose|i: int, j: int| #[trigger] targets(bindings[k], modules, i, j);
    assert(targets(bindings[k], modules, i, j));
    assert(!param_bound(modules, rest, i, j));
}

impl CompositionError {
    /// The position among the modules that a defect of a module names.
    pub open spec fn module_place(self) -> Option<int> {
        match self {
            CompositionError::DuplicateModule { index, .. } => Some(index as int),
            CompositionError::MalformedModule { index, .. } => Some(index as int),
            _ => None,
        }
    }

    /// The position among the bindings that a defect of a binding names.
    pub open spec fn binding_place(self) -> Option<int> {
        match self {
            CompositionError::UnexpectedBinding { index, .. } => Some(index as int),
            CompositionError::DuplicateBinding { index, .. } => Some(index as int),
            CompositionError::UnitNotPermitted { index, .. } => Some(index as int),
            CompositionError::IncompatibleBinding { index, .. } => Some(index as int),
            _ => None,
        }
    }
}

/// A description has at most one first defect: what [`validate`] reports is
/// determined by the description.
pub proof fn lemma_first_defect_is_unique(
    e1: CompositionError,
    e2: CompositionError,
    modules: Seq<ModuleDescriptor>,
    bindings: Seq<Binding>,
)
    requires
        e1.is_first_defect_of(modules, bindings),
        e2.is_first_defect_of(modules, bindings),
    ensures
        e1 == e2,
{
    if let Some(i1) = e1.module_place() {
        assert(!module_ok(modules, i1));
        if let Some(i2) = e2.module_place() {
            assert(!module_ok(modules, i2));
            assert(i1 == i2) by {
                if i1 < i2 {
                    assert(module_ok(modules, i1));
                } else if i2 < i1 {
                    assert(module_ok(modules, i2));
                }
            }
        }
    } else if let Some(i2) = e2.module_place() {
        assert(!module_ok(modules, i2));
    } else if let Some(k1) = e1.binding_place() {
        lemma_binding_defect(e1, modules, bindings);
        if let Some(k2) = e2.binding_place() {
            lemma_binding_defect(e2, modules, bindings);
            assert(k1 == k2) by {
                if k1 < k2 {
                    assert(binding_ok(modules, bindings, k1));
                } else if k2 < k1 {
                    assert(binding_ok(modules, bindings, k2));
                }
            }
            if let CompositionError::IncompatibleBinding { earlier: h1, .. } = e1 {
                if let CompositionError::IncompatibleBinding { earlier: h2, .. } = e2 {
                    assert(conflicts(bindings[h1 as int], bindings[k1]));
                    assert(conflicts(bindings[h2 as int], bindings[k1]));
                }
            }
        }
    } else if let Some(k2) = e2.binding_place() {
        lemma_binding_defect(e2, modules, bindings);
    } else {
        match (e1, e2) {
            (
                CompositionError::MissingBinding { module_index: i1, param_index: j1, .. },
                CompositionError::MissingBinding { module_index: i2, param_index: j2, .. },
            ) => {
                if comes_before(modules, i1 as int, j1 as int, i2 as int, j2 as int) {
                    assert(param_bound(modules, bindings, i1 as int, j1 as int));
                } else if comes_before(modules, i2 as int, j2 as int, i1 as int, j1 as int) {
                    assert(param_bound(modules, bindings, i2 as int, j2 as int));
                }
            },
            _ => {},
        }
    }
}

/// The binding that a defect of a binding names is not acceptable.
proof fn lemma_binding_defect(
    e: CompositionError,
    modules: Seq<ModuleDescriptor>,
    bindings: Seq<Binding>,
)
    requires
        e.is_first_defect_of(modules, bindings),
        e.binding_place() is Some,
    ensures
        modules_ok(modules),
        0 <= e.binding_place().unwrap() < bindings.len(),
        !binding_ok(modules, bindings, e.binding_place().unwrap()),
        forall|k: int| 0 <= k < e.binding_place().unwrap() ==> #[trigger] binding_ok(modules, bindings, k),
{
    if let CompositionError::IncompatibleBinding { index, earlier, .. } = e {
        assert(conflicts(bindings[earlier as int], bindings[index as int]));
        assert(conflict_before(bindings, index as int));
    }
}

/// The first of the first `limit` modules that has the identifier `id`.
pub(crate) fn find_module(modules: &Vec<ModuleDescriptor>, limit: usize, id: ModuleId) -> (found: Option<
    usize,
>)
    requires
        limit <= modules.len(),
    ensures
        match found {
            Some(i) => {
                &&& i < limit
                &&& modules@[i as int].id == id
                &&& forall|h: int| 0 <= h < i ==> (#[trigger] modules@[h]).id != id
            },
            None => forall|h: int| 0 <= h < limit ==> (#[trigger] modules@[h]).id != id,
        },
{
    let mut i: usize = 0;
    while i < limit
        invariant
            i <= limit <= modules.len(),
            forall|h: int| 0 <= h < i ==> (#[trigger] modules@[h]).id != id,
        decreases limit - i,
    {
        if modules[i].id == id {
            return Some(i);
        }
        i += 1;
    }
    None
}

/// The first defect among the modules, if there is one.
fn first_module_defect(modules: &Vec<ModuleDescriptor>) -> (found: Option<CompositionError>)
    ensures
        match found {
            Some(e) => {
                &&& e.is_first_defect_of(modules@, Seq::empty())
                &&& (e is DuplicateModule || e is MalformedModule)
            },
            None => modules_ok(modules@),
        },
{
    let mut i: usize = 0;
    while i < modules.len()
        invariant
            i <= modules.len(),
            forall|h: int| 0 <= h < i ==> #[trigger] module_ok(modules@, h),
        decreases modules.len() - i,
    {
        let id = modules[i].id;
        if find_module(modules, i, id).is_some() {
            return Some(CompositionError::DuplicateModule { index: i, module: id });
        }
        if !modules[i].is_well_formed() {
            return Some(CompositionError::MalformedModule { index: i, module: id });
        }
        i += 1;
    }
    None
}

/// The first defect among the bindings, if there is one.
fn first_binding_defect(modules: &Vec<ModuleDescriptor>, bindings: &Vec<Binding>) -> (found:
    Option<CompositionError>)
    requires
        modules_ok(modules@),
    ensures
        match found {
            Some(e) => e.is_first_defect_of(modules@, bindings@),
            None => bindings_ok(modules@, bindings@),
        },
{
    let mut k: usize = 0;
    while k < bindings.len()
        invariant
            k <= bindings.len(),
            modules_ok(modules@),
            forall|h: int| 0 <= h < k ==> #[trigger] binding_ok(modules@, bindings@, h),
        decreases bindings.len() - k,
    {
        let b = bindings[k];
        let unexpected = CompositionError::UnexpectedBinding {
            index: k,
            module: b.module,
            param: b.param,
        };
        let i = match find_module(modules, modules.len(), b.module) {
            Some(i) => i,
            None => {
                assert(!expected(modules@, b)) by {
                    assert forall|i: int, j: int| !#[trigger] targets(b, modules@, i, j) by {
                        if targets(b, modules@, i, j) {
                            assert(modules@[i].id == b.module);
                        }
                    }
                }
                return Some(unexpected);
            },
        };
        let j = match find_param(&modules[i].params, modules[i].params.len(), b.param) {
            Some(j) => j,
            None => {
                assert(!expected(modules@, b)) by {
                    assert forall|i2: int, j2: int| !#[trigger] targets(b, modules@, i2, j2) by {
                        if targets(b, modules@, i2, j2) {
                            assert(module_ok(modules@, i2));
                            assert(module_ok(modules@, i as int));
                            lemma_module_position_unique(modules@, i2, i as int);
                            assert(modules@[i as int].params@[j2].id == b.param);
                        }
                    }
                }
                return Some(unexpected);
            },
        };
        assert(targets(b, modules@, i as int, j as int));
        if find_binding(bindings, k, b.module, b.param).is_some() {
            return Some(
                CompositionError::DuplicateBinding { index: k, module: b.module, param: b.param },
            );
        }
        assert(!target_seen_before(bindings@, k as int));
        if b.ty == TypeRef::Unit && !modules[i].params[j].unit_allowed {
            return Some(
                CompositionError::UnitNotPermitted { index: k, module: b.module, param: b.param },
            );
        }
        assert(!unit_refused(modules@, b)) by {
            assert forall|i2: int, j2: int| #[trigger]
                targets(b, modules@, i2, j2) implies modules@[i2].params@[j2].unit_allowed || b.ty
                != TypeRef::Unit by {
                lemma_target_unique(modules@, b, i as int, j as int, i2, j2);
            }
        }
        match find_conflict(bindings, k, b.param, b.ty) {
            Some(h) => {
                assert(conflicts(bindings@[h as int], b));
                return Some(
                    CompositionError::IncompatibleBinding {
                        index: k,
                        earlier: h,
                        module: b.module,
                        earlier_module: bindings[h].module,
                        param: b.param,
                    },
                );
            },
            None => {},
        }
        assert(!conflict_before(bindings@, k as int));
        assert(binding_ok(modules@, bindings@, k as int));
        k += 1;
    }
    None
}

/// The first declared parameter that is left without a binding, if there is
/// one.
fn first_missing_binding(modules: &Vec<ModuleDescriptor>, bindings: &Vec<Binding>) -> (found:
    Option<CompositionError>)
    requires
        modules_ok(modules@),
        bindings_ok(modules@, bindings@),
    ensures
        match found {
            Some(e) => e.is_first_defect_of(modules@, bindings@),
            None => all_bound(modules@, bindings@),
        },
{
    let mut i: usize = 0;
    while i < modules.len()
        invariant
            i <= modules.len(),
            modules_ok(modules@),
            bindings_ok(modules@, bindings@),
            forall|a: int, b: int|
                comes_before(modules@, a, b, i as int, 0) ==> #[trigger] param_bound(
                    modules@,
                    bindings@,
                    a,
                    b,
                ),
        decreases modules.len() - i,
    {
        let id = modules[i].id;
        let mut j: usize = 0;
        while j < modules[i].params.len()
            invariant
                i < modules.len(),
                modules_ok(modules@),
                bindings_ok(modules@, bindings@),
                id == modules@[i as int].id,
                j <= modules@[i as int].params@.len(),
                forall|a: int, b: int|
                    comes_before(modules@, a, b, i as int, j as int) ==> #[trigger] param_bound(
                        modules@,
                        bindings@,
                        a,
                        b,
                    ),
            decreases modules@[i as int].params@.len() - j,
        {
            let param = modules[i].params[j].id;
            match find_binding(bindings, bindings.len(), id, param) {
                Some(k) => {
                    assert(targets(bindings@[k as int], modules@, i as int, j as int));
                    assert(param_bound(modules@, bindings@, i as int, j as int));
                },
                None => {
                    assert(!param_bound(modules@, bindings@, i as int, j as int)) by {
                        assert forall|k: int| 0 <= k < bindings@.len() implies !targets(
                            #[trigger] bindings@[k],
                            modules@,
                            i as int,
                            j as int,
                        ) by {}
                    }
                    return Some(
                        CompositionError::MissingBinding {
                            module_index: i,
                            param_index: j,
                            module: id,
                            param,
                        },
                    );
                },
            }
            j += 1;
        }
        i += 1;
    }
    None
}

/// Checks that the modules and bindings describe a runtime, and reports the
/// first defect when they do not.
pub fn validate(modules: &Vec<ModuleDescriptor>, bindings: &Vec<Binding>) -> (result: Result<
    (),
    CompositionError,
>)
    ensures
        result is Ok <==> composable(modules@, bindings@),
        match result {
            Ok(_) => true,
            Err(e) => e.is_first_defect_of(modules@, bindings@),
        },
{
    if let Some(e) = first_module_defect(modules) {
        proof {
            lemma_defect_excludes_composable(e, modules@, bindings@);
        }
        return Err(e);
    }
    if let Some(e) = first_binding_defect(modules, bindings) {
        proof {
            lemma_defect_excludes_composable(e, modules@, bindings@);
        }
        return Err(e);
    }
    if let Some(e) = first_missing_binding(modules, bindings) {
        proof {
            lemma_defect_excludes_composable(e, modules@, bindings@);
        }
        return Err(e);
    }
    Ok(())
}

} // verus!
