//! Facts about link checking, stated over the specification of
//! `verify_module` and proved.
use vstd::prelude::*;

use crate::dependencies::{
    datatype_failure, datatype_handles_compatible, datatype_lookup,
    datatype_type_parameters_compatible, dep_position, external_entry, first_datatype_failure,
    first_function_failure, first_missing_module, first_script_violation, script_set,
    fun_type_parameters_compatible, function_def_name, function_failure, function_lookup,
    last_callable_named, link_failure, module_handle_missing, owner_of, phantom_compatible,
    script_visibility_failure, signatures_compatible, tokens_compatible, IndexKind, StatusCode,
    constraints_compatible,
};
use crate::file_format::{
    AbilitySet, Bytecode, CompiledModule, DatatypeHandle, DatatypeHandleIndex, DatatypeTyParameter, FunctionDefinition,
    FunctionHandleIndex,
    ModuleIdView, SignatureToken, Visibility, VERSION_5,
};

verus! {

// ---------------------------------------------------------------------------
// Dependency resolution
// ---------------------------------------------------------------------------

/// Two dependency lists resolve every identity alike.
pub open spec fn same_resolution(m: CompiledModule, d1: Seq<CompiledModule>, d2: Seq<CompiledModule>) -> bool {
    forall|id: ModuleIdView|
        #![trigger dep_position(d1, m.self_id(), id)]
        #![trigger dep_position(d2, m.self_id(), id)]
        match (dep_position(d1, m.self_id(), id), dep_position(d2, m.self_id(), id)) {
            (None, None) => true,
            (Some(p1), Some(p2)) => d1[p1] == d2[p2],
            _ => false,
        }
}

proof fn lemma_first_missing_same(m: CompiledModule, d1: Seq<CompiledModule>, d2: Seq<CompiledModule>, i: int)
    requires
        same_resolution(m, d1, d2),
    ensures
        first_missing_module(m, d1, i) == first_missing_module(m, d2, i),
    decreases m.module_handles.len() - i,
{
    if 0 <= i < m.module_handles.len() {
        let id = m.module_id_of(m.module_handles@[i]);
        assert(dep_position(d1, m.self_id(), id) is None <==> dep_position(d2, m.self_id(), id) is None);
        lemma_first_missing_same(m, d1, d2, i + 1);
    }
}

proof fn lemma_first_datatype_failure_same(m: CompiledModule, d1: Seq<CompiledModule>, d2: Seq<CompiledModule>, i: int)
    requires
        same_resolution(m, d1, d2),
    ensures
        first_datatype_failure(m, d1, i) == first_datatype_failure(m, d2, i),
    decreases m.datatype_handles.len() - i,
{
    if 0 <= i < m.datatype_handles.len() {
        let h = m.datatype_handles@[i];
        let id = m.handle_id(h.module);
        assert(dep_position(d1, m.self_id(), id) == dep_position(d1, m.self_id(), id));
        assert(dep_position(d2, m.self_id(), id) == dep_position(d2, m.self_id(), id));
        assert(datatype_failure(m, d1, i) == datatype_failure(m, d2, i));
        lemma_first_datatype_failure_same(m, d1, d2, i + 1);
    }
}

proof fn lemma_first_function_failure_same(m: CompiledModule, d1: Seq<CompiledModule>, d2: Seq<CompiledModule>, i: int)
    requires
        same_resolution(m, d1, d2),
    ensures
        first_function_failure(m, d1, i) == first_function_failure(m, d2, i),
    decreases m.function_handles.len() - i,
{
    if 0 <= i < m.function_handles.len() {
        let h = m.function_handles@[i];
        let id = m.handle_id(h.module);
        assert(dep_position(d1, m.self_id(), id) == dep_position(d1, m.self_id(), id));
        assert(dep_position(d2, m.self_id(), id) == dep_position(d2, m.self_id(), id));
        assert(function_failure(m, d1, i) == function_failure(m, d2, i));
        lemma_first_function_failure_same(m, d1, d2, i + 1);
    }
}

proof fn lemma_first_script_violation_same(m: CompiledModule, d1: Seq<CompiledModule>, d2: Seq<CompiledModule>, f: int)
    requires
        same_resolution(m, d1, d2),
    ensures
        first_script_violation(m, d1, f) == first_script_violation(m, d2, f),
    decreases m.function_defs.len() - f,
{
    assert forall|h: int| 0 <= h < m.function_handles.len() implies #[trigger] script_set(m, d1)[h] == script_set(m, d2)[h] by {
        let id = m.handle_id(m.function_handles@[h].module);
        assert(dep_position(d1, m.self_id(), id) == dep_position(d1, m.self_id(), id));
        assert(dep_position(d2, m.self_id(), id) == dep_position(d2, m.self_id(), id));
        assert(external_entry(m, d1, h) == external_entry(m, d2, h));
    }
    assert(script_set(m, d1) =~= script_set(m, d2));
    if 0 <= f < m.function_defs.len() {
        lemma_first_script_violation_same(m, d1, d2, f + 1);
    }
}

/// Dependency lists that resolve every identity alike give the same verdict.
pub proof fn lemma_same_resolution_same_verdict(m: CompiledModule, d1: Seq<CompiledModule>, d2: Seq<CompiledModule>)
    requires
        same_resolution(m, d1, d2),
    ensures
        link_failure(m, d1) == link_failure(m, d2),
{
    lemma_first_missing_same(m, d1, d2, 0);
    lemma_first_datatype_failure_same(m, d1, d2, 0);
    lemma_first_function_failure_same(m, d1, d2, 0);
    lemma_first_script_violation_same(m, d1, d2, 0);
}

/// A module offered as its own dependency is ignored: checking `m` against
/// `[m]` gives the same verdict as checking it against no dependency at all.
pub proof fn lemma_self_dependency_ignored(m: CompiledModule)
    ensures
        link_failure(m, seq![m]) == link_failure(m, Seq::<CompiledModule>::empty()),
{
    let d1 = seq![m];
    let d2 = Seq::<CompiledModule>::empty();
    assert forall|id: ModuleIdView| #[trigger] dep_position(d1, m.self_id(), id) is None by {
        if id != m.self_id() {
            assert(d1.last() == m);
            assert(d1.drop_last() =~= d2);
            assert(dep_position(d2, m.self_id(), id) is None);
        }
    }
    assert(same_resolution(m, d1, d2));
    lemma_same_resolution_same_verdict(m, d1, d2);
}

proof fn lemma_no_missing_from(m: CompiledModule, deps: Seq<CompiledModule>, i: int)
    requires
        m.well_formed(),
        m.module_handles.len() == 1,
    ensures
        first_missing_module(m, deps, i) is None,
    decreases m.module_handles.len() - i,
{
    if 0 <= i < m.module_handles.len() {
        lemma_no_missing_from(m, deps, i + 1);
    }
}

proof fn lemma_no_datatype_failure_from(m: CompiledModule, deps: Seq<CompiledModule>, i: int)
    requires
        m.well_formed(),
        m.module_handles.len() == 1,
    ensures
        first_datatype_failure(m, deps, i) is None,
    decreases m.datatype_handles.len() - i,
{
    if 0 <= i < m.datatype_handles.len() {
        let h = m.datatype_handles@[i];
        assert(h.module.0 == m.self_module_handle_idx.0);
        lemma_no_datatype_failure_from(m, deps, i + 1);
    }
}

proof fn lemma_no_function_failure_from(m: CompiledModule, deps: Seq<CompiledModule>, i: int)
    requires
        m.well_formed(),
        m.module_handles.len() == 1,
    ensures
        first_function_failure(m, deps, i) is None,
    decreases m.function_handles.len() - i,
{
    if 0 <= i < m.function_handles.len() {
        let h = m.function_handles@[i];
        assert(h.module.0 == m.self_module_handle_idx.0);
        lemma_no_function_failure_from(m, deps, i + 1);
    }
}

/// A well-formed module whose only module handle is its own links against
/// itself, unless its own entry-call rule fails (a module older than
/// `VERSION_5` whose non-entry function calls one of its entry functions).
pub proof fn lemma_self_link_succeeds(m: CompiledModule)
    requires
        m.well_formed(),
        m.module_handles.len() == 1,
        script_visibility_failure(m, seq![m]) is None,
    ensures
        link_failure(m, seq![m]) is None,
{
    lemma_no_missing_from(m, seq![m], 0);
    lemma_no_datatype_failure_from(m, seq![m], 0);
    lemma_no_function_failure_from(m, seq![m], 0);
}

proof fn lemma_first_missing_at_least(m: CompiledModule, deps: Seq<CompiledModule>, k: int)
    ensures
        first_missing_module(m, deps, k) matches Some(j) ==> k <= j,
    decreases m.module_handles.len() - k,
{
    if 0 <= k < m.module_handles.len() {
        lemma_first_missing_at_least(m, deps, k + 1);
    }
}

proof fn lemma_supplied_moves_past(m: CompiledModule, deps: Seq<CompiledModule>, n: CompiledModule, i: int, k: int)
    requires
        0 <= k <= i,
        first_missing_module(m, deps, k) == Some(i),
        n.self_id() == m.module_id_of(m.module_handles@[i]),
        n.self_id() != m.self_id(),
    ensures
        first_missing_module(m, deps.push(n), k) matches Some(j) ==> i < j,
    decreases i - k,
{
    let d2 = deps.push(n);
    assert(d2.drop_last() =~= deps);
    if k == i {
        assert(!module_handle_missing(m, d2, i));
        lemma_first_missing_at_least(m, d2, i + 1);
    } else {
        let id = m.module_id_of(m.module_handles@[k]);
        assert(!module_handle_missing(m, deps, k));
        assert(!module_handle_missing(m, d2, k));
        lemma_supplied_moves_past(m, deps, n, i, k + 1);
    }
}

/// Supplying the module that a missing-dependency error names moves the check
/// past that handle: the check then succeeds, or fails with another status or
/// at another index. (A handle naming the module's own identity at another
/// position cannot be supplied, since a module is never its own dependency.)
pub proof fn lemma_supplying_missing_dependency(m: CompiledModule, deps: Seq<CompiledModule>, n: CompiledModule, i: int)
    requires
        m.well_formed(),
        link_failure(m, deps) == Some(
            (StatusCode::MISSING_DEPENDENCY, Some((IndexKind::ModuleHandle, i as u16)), None::<(u16, u16)>),
        ),
        first_missing_module(m, deps, 0) == Some(i),
        n.self_id() == m.module_id_of(m.module_handles@[i]),
        n.self_id() != m.self_id(),
    ensures
        link_failure(m, deps.push(n)) != link_failure(m, deps),
{
    lemma_first_missing_at_least(m, deps, 0);
    lemma_supplied_moves_past(m, deps, n, i, 0);
    let d2 = deps.push(n);
    if let Some(j) = first_missing_module(m, d2, 0) {
        lemma_first_missing_at_least(m, d2, 0);
        assert(j < m.module_handles.len()) by {
            lemma_first_missing_in_range(m, d2, 0);
        }
        assert(j as u16 != i as u16);
    }
}

proof fn lemma_first_missing_in_range(m: CompiledModule, deps: Seq<CompiledModule>, k: int)
    ensures
        first_missing_module(m, deps, k) matches Some(j) ==> j < m.module_handles.len(),
    decreases m.module_handles.len() - k,
{
    if 0 <= k < m.module_handles.len() {
        lemma_first_missing_in_range(m, deps, k + 1);
    }
}

// ---------------------------------------------------------------------------
// Datatype handles
// ---------------------------------------------------------------------------

/// Dropping abilities from a compatible local datatype handle keeps it
/// compatible; claiming an ability that the definition lacks never is.
pub proof fn lemma_abilities_antitone(local: DatatypeHandle, defined: DatatypeHandle, abilities: AbilitySet)
    ensures
        datatype_handles_compatible(local, defined) && abilities.subset_of(local.abilities)
            ==> datatype_handles_compatible(DatatypeHandle { abilities, ..local }, defined),
        !abilities.subset_of(defined.abilities) ==> !datatype_handles_compatible(
            DatatypeHandle { abilities, ..local },
            defined,
        ),
{
}

/// A datatype handle that resolves to a definition lacking one of its
/// abilities fails with `TYPE_MISMATCH`.
pub proof fn lemma_widened_abilities_mismatch(m: CompiledModule, deps: Seq<CompiledModule>, i: int, p: int)
    requires
        0 <= i < m.datatype_handles.len(),
        m.datatype_handles@[i].module != m.self_module_handle_idx,
        owner_of(m, deps, m.datatype_handles@[i].module) == Some(p),
        datatype_lookup(deps[p], m.identifier(m.datatype_handles@[i].name)) matches Some(j)
            && !m.datatype_handles@[i].abilities.subset_of(deps[p].datatype_handles@[j.0 as int].abilities),
    ensures
        datatype_failure(m, deps, i) == Some(StatusCode::TYPE_MISMATCH),
{
}

/// Demanding more of a function's type parameters locally never breaks
/// compatibility; demanding less than the definition at any position always
/// does.
pub proof fn lemma_fun_constraints_monotone(local: Seq<AbilitySet>, wider: Seq<AbilitySet>, defined: Seq<AbilitySet>)
    requires
        local.len() == wider.len(),
        forall|k: int| 0 <= k < local.len() ==> (#[trigger] local[k]).subset_of(wider[k]),
    ensures
        fun_type_parameters_compatible(local, defined) ==> fun_type_parameters_compatible(wider, defined),
{
    if fun_type_parameters_compatible(local, defined) {
        assert forall|k: int| 0 <= k < wider.len() implies constraints_compatible(#[trigger] wider[k], defined[k]) by {
            assert(constraints_compatible(local[k], defined[k]));
        }
    }
}

/// A local function type parameter lacking a constraint of the definition
/// makes the handles incompatible.
pub proof fn lemma_fun_constraint_dropped(local: Seq<AbilitySet>, defined: Seq<AbilitySet>, k: int)
    requires
        0 <= k < local.len(),
        !defined[k].subset_of(local[k]),
    ensures
        !fun_type_parameters_compatible(local, defined),
{
    assert(!constraints_compatible(local[k], defined[k]));
}

/// Demanding more of a datatype's type parameters locally never breaks
/// compatibility; demanding less than the definition at any position always
/// does.
pub proof fn lemma_datatype_constraints_monotone(
    local: Seq<DatatypeTyParameter>,
    wider: Seq<DatatypeTyParameter>,
    defined: Seq<DatatypeTyParameter>,
)
    requires
        local.len() == wider.len(),
        forall|k: int|
            0 <= k < local.len() ==> (#[trigger] local[k]).constraints.subset_of(wider[k].constraints)
                && local[k].is_phantom == wider[k].is_phantom,
    ensures
        datatype_type_parameters_compatible(local, defined) ==> datatype_type_parameters_compatible(
            wider,
            defined,
        ),
{
    if datatype_type_parameters_compatible(local, defined) {
        assert forall|k: int| 0 <= k < wider.len() implies phantom_compatible(#[trigger] wider[k], defined[k])
            && constraints_compatible(wider[k].constraints, defined[k].constraints) by {
            assert(phantom_compatible(local[k], defined[k]));
        }
    }
}

/// A local datatype type parameter lacking a constraint of the definition
/// makes the handles incompatible.
pub proof fn lemma_datatype_constraint_dropped(local: Seq<DatatypeTyParameter>, defined: Seq<DatatypeTyParameter>, k: int)
    requires
        0 <= k < local.len(),
        !defined[k].constraints.subset_of(local[k].constraints),
    ensures
        !datatype_type_parameters_compatible(local, defined),
{
    assert(!constraints_compatible(local[k].constraints, defined[k].constraints));
}

/// Phantomness is checked one way only: a parameter phantom locally but not
/// in the definition is incompatible, while a parameter that is not phantom
/// locally never fails on phantomness, whatever the definition says.
pub proof fn lemma_phantom_one_way(local: Seq<DatatypeTyParameter>, defined: Seq<DatatypeTyParameter>, k: int)
    requires
        0 <= k < local.len(),
    ensures
        local[k].is_phantom && !defined[k].is_phantom ==> !datatype_type_parameters_compatible(local, defined),
        !local[k].is_phantom ==> phantom_compatible(local[k], defined[k]),
        datatype_type_parameters_compatible(local, defined) ==> datatype_type_parameters_compatible(
            local.update(k, DatatypeTyParameter { is_phantom: false, ..local[k] }),
            defined,
        ),
{
    let l2 = local.update(k, DatatypeTyParameter { is_phantom: false, ..local[k] });
    if local[k].is_phantom && !defined[k].is_phantom {
        assert(!phantom_compatible(local[k], defined[k]));
    }
    if datatype_type_parameters_compatible(local, defined) {
        assert forall|j: int| 0 <= j < l2.len() implies phantom_compatible(#[trigger] l2[j], defined[j])
            && constraints_compatible(l2[j].constraints, defined[j].constraints) by {
            assert(phantom_compatible(local[j], defined[j]));
        }
    }
}

// ---------------------------------------------------------------------------
// Signatures
// ---------------------------------------------------------------------------

/// Every token is compatible with itself when read in the same module.
pub proof fn lemma_token_reflexive(m: CompiledModule, t: SignatureToken)
    ensures
        tokens_compatible(m, m, t, t),
    decreases t,
{
    match t {
        SignatureToken::Vector(b) => lemma_token_reflexive(m, *b),
        SignatureToken::Reference(b) => lemma_token_reflexive(m, *b),
        SignatureToken::MutableReference(b) => lemma_token_reflexive(m, *b),
        SignatureToken::DatatypeInstantiation(i, args) => {
            assert forall|k: int| 0 <= k < args.len() implies tokens_compatible(m, m, #[trigger] args[k], args[k]) by {
                lemma_token_reflexive(m, args[k]);
            }
        },
        _ => {},
    }
}

/// Every signature is compatible with itself when read in the same module.
pub proof fn lemma_signature_reflexive(m: CompiledModule, s: Seq<SignatureToken>)
    ensures
        signatures_compatible(m, m, s, s),
{
    assert forall|k: int| 0 <= k < s.len() implies tokens_compatible(m, m, #[trigger] s[k], s[k]) by {
        lemma_token_reflexive(m, s[k]);
    }
}

/// A signature matches another of the same shape position by position
/// whenever each pair of tokens matches.
pub proof fn lemma_signature_pointwise(m: CompiledModule, d: CompiledModule, xs: Seq<SignatureToken>, ys: Seq<SignatureToken>)
    requires
        xs.len() == ys.len(),
    ensures
        signatures_compatible(m, d, xs, ys) <==> forall|k: int| 0 <= k < xs.len() ==> tokens_compatible(m, d, #[trigger] xs[k], ys[k]),
{
}

/// An immutable reference never matches a mutable one, either way round.
pub proof fn lemma_reference_mutability_strict(m: CompiledModule, d: CompiledModule, a: SignatureToken, b: SignatureToken)
    requires
        (a is Reference && b is MutableReference) || (a is MutableReference && b is Reference),
    ensures
        !tokens_compatible(m, d, a, b),
{
}

/// A signature with a reference swapped for a mutable one (or the other way
/// round) at any position does not match.
pub proof fn lemma_signature_reference_swap(m: CompiledModule, d: CompiledModule, xs: Seq<SignatureToken>, ys: Seq<SignatureToken>, k: int)
    requires
        0 <= k < xs.len(),
        (xs[k] is Reference && ys[k] is MutableReference) || (xs[k] is MutableReference && ys[k] is Reference),
    ensures
        !signatures_compatible(m, d, xs, ys),
{
    lemma_reference_mutability_strict(m, d, xs[k], ys[k]);
}

// ---------------------------------------------------------------------------
// Visibility
// ---------------------------------------------------------------------------

proof fn lemma_no_callable(d: CompiledModule, fds: Seq<FunctionDefinition>, name: Seq<u8>, caller: ModuleIdView)
    requires
        forall|k: int|
            0 <= k < fds.len() && function_def_name(d, #[trigger] fds[k]) == name ==> fds[k].visibility == Visibility::Private
                || (fds[k].visibility == Visibility::Friend && !d.has_friend(caller)),
    ensures
        last_callable_named(d, fds, name, caller) is None,
    decreases fds.len(),
{
    if fds.len() > 0 {
        assert(fds.last() == fds[fds.len() - 1]);
        lemma_no_callable(d, fds.drop_last(), name, caller);
    }
}

/// A function handle whose owner defines the function as private only fails
/// with `LOOKUP_FAILED`.
pub proof fn lemma_private_isolation(m: CompiledModule, deps: Seq<CompiledModule>, i: int, p: int)
    requires
        0 <= i < m.function_handles.len(),
        m.function_handles@[i].module != m.self_module_handle_idx,
        owner_of(m, deps, m.function_handles@[i].module) == Some(p),
        forall|k: int|
            0 <= k < deps[p].function_defs.len() && function_def_name(deps[p], #[trigger] deps[p].function_defs@[k])
                == m.identifier(m.function_handles@[i].name) ==> deps[p].function_defs@[k].visibility
                == Visibility::Private,
    ensures
        function_failure(m, deps, i) == Some(StatusCode::LOOKUP_FAILED),
{
    lemma_no_callable(deps[p], deps[p].function_defs@, m.identifier(m.function_handles@[i].name), m.self_id());
}

proof fn lemma_friend_callable(d: CompiledModule, fds: Seq<FunctionDefinition>, name: Seq<u8>, caller: ModuleIdView, k: int)
    requires
        0 <= k < fds.len(),
        function_def_name(d, fds[k]) == name,
        fds[k].visibility == Visibility::Friend,
        d.has_friend(caller),
    ensures
        last_callable_named(d, fds, name, caller) is Some,
    decreases fds.len(),
{
    if k < fds.len() - 1 {
        assert(fds.drop_last()[k] == fds[k]);
        lemma_friend_callable(d, fds.drop_last(), name, caller, k);
    }
}

/// A module that `d` declares as a friend may import `d`'s friend functions;
/// the same module, undeclared, may not import a function that `d` defines
/// only as friend or private.
pub proof fn lemma_friend_gating(d: CompiledModule, name: Seq<u8>, caller: ModuleIdView, k: int)
    requires
        0 <= k < d.function_defs.len(),
        function_def_name(d, d.function_defs@[k]) == name,
        d.function_defs@[k].visibility == Visibility::Friend,
    ensures
        d.has_friend(caller) ==> function_lookup(d, name, caller) is Some,
        !d.has_friend(caller) && (forall|j: int|
            0 <= j < d.function_defs.len() && function_def_name(d, #[trigger] d.function_defs@[j]) == name
                ==> d.function_defs@[j].visibility != Visibility::Public) ==> function_lookup(d, name, caller) is None,
{
    if d.has_friend(caller) {
        lemma_friend_callable(d, d.function_defs@, name, caller, k);
    }
    if !d.has_friend(caller) && (forall|j: int|
        0 <= j < d.function_defs.len() && function_def_name(d, #[trigger] d.function_defs@[j]) == name
            ==> d.function_defs@[j].visibility != Visibility::Public) {
        lemma_no_callable(d, d.function_defs@, name, caller);
    }
}

/// A function handle whose owner does not resolve to a callable definition
/// fails with `LOOKUP_FAILED`.
pub proof fn lemma_unresolved_function_lookup_failed(m: CompiledModule, deps: Seq<CompiledModule>, i: int, p: int)
    requires
        0 <= i < m.function_handles.len(),
        m.function_handles@[i].module != m.self_module_handle_idx,
        owner_of(m, deps, m.function_handles@[i].module) == Some(p),
        function_lookup(deps[p], m.identifier(m.function_handles@[i].name), m.self_id()) is None,
    ensures
        function_failure(m, deps, i) == Some(StatusCode::LOOKUP_FAILED),
{
}

/// The entry-call rule never applies to modules of version `VERSION_5` or
/// later.
pub proof fn lemma_v5_skips_script_visibility(m: CompiledModule, deps: Seq<CompiledModule>)
    requires
        m.version >= VERSION_5,
    ensures
        script_visibility_failure(m, deps) is None,
{
}


// ---------------------------------------------------------------------------
// The datatype and function passes under a change of one local handle
// ---------------------------------------------------------------------------

/// `m2` is `m` with datatype handle `i` replaced by one of the same module
/// and name.
pub open spec fn datatype_handle_changed(m: CompiledModule, m2: CompiledModule, i: int) -> bool {
    &&& m2 == CompiledModule { datatype_handles: m2.datatype_handles, ..m }
    &&& 0 <= i < m.datatype_handles.len()
    &&& m2.datatype_handles.len() == m.datatype_handles.len()
    &&& forall|j: int| 0 <= j < m.datatype_handles.len() && j != i ==> #[trigger] m2.datatype_handles@[j] == m.datatype_handles@[j]
    &&& m2.datatype_handles@[i].module == m.datatype_handles@[i].module
    &&& m2.datatype_handles@[i].name == m.datatype_handles@[i].name
}

/// `m2` is `m` with function handle `i` replaced by one of the same module,
/// name and signatures.
pub open spec fn function_handle_changed(m: CompiledModule, m2: CompiledModule, i: int) -> bool {
    &&& m2 == CompiledModule { function_handles: m2.function_handles, ..m }
    &&& 0 <= i < m.function_handles.len()
    &&& m2.function_handles.len() == m.function_handles.len()
    &&& forall|j: int| 0 <= j < m.function_handles.len() && j != i ==> #[trigger] m2.function_handles@[j] == m.function_handles@[j]
    &&& m2.function_handles@[i].module == m.function_handles@[i].module
    &&& m2.function_handles@[i].name == m.function_handles@[i].name
    &&& m2.function_handles@[i].parameters == m.function_handles@[i].parameters
    &&& m2.function_handles@[i].return_ == m.function_handles@[i].return_
}

proof fn lemma_datatype_failures_from(m: CompiledModule, m2: CompiledModule, deps: Seq<CompiledModule>, i: int, k: int)
    requires
        datatype_handle_changed(m, m2, i),
        0 <= k,
        forall|j: int| k <= j < i ==> datatype_failure(m, deps, j) is None,
        i < k ==> first_datatype_failure(m, deps, k) is None,
        k <= i ==> (first_datatype_failure(m, deps, i + 1) is None),
    ensures
        k <= i ==> first_datatype_failure(m2, deps, k) == match datatype_failure(m2, deps, i) {
            Some(c) => Some((i, c)),
            None => None::<(int, StatusCode)>,
        },
        i < k ==> first_datatype_failure(m2, deps, k) is None,
    decreases m.datatype_handles.len() - k,
{
    if k < m.datatype_handles.len() {
        if k != i {
            assert(m2.datatype_handles@[k] == m.datatype_handles@[k]);
            assert(datatype_failure(m2, deps, k) == datatype_failure(m, deps, k));
        }
        lemma_datatype_failures_from(m, m2, deps, i, k + 1);
    }
}

/// Dropping abilities of a local datatype handle, within those of its
/// definition, never makes the datatype pass fail where it succeeded; giving
/// it an ability its definition lacks makes the pass fail with
/// `TYPE_MISMATCH` at that handle when no earlier handle fails.
pub proof fn lemma_datatype_pass_abilities(m: CompiledModule, m2: CompiledModule, deps: Seq<CompiledModule>, i: int, p: int, j: DatatypeHandleIndex)
    requires
        datatype_handle_changed(m, m2, i),
        m2.datatype_handles@[i].type_parameters@ == m.datatype_handles@[i].type_parameters@,
        m.datatype_handles@[i].module != m.self_module_handle_idx,
        owner_of(m, deps, m.datatype_handles@[i].module) == Some(p),
        datatype_lookup(deps[p], m.identifier(m.datatype_handles@[i].name)) == Some(j),
    ensures
        first_datatype_failure(m, deps, 0) is None && m2.datatype_handles@[i].abilities.subset_of(
            deps[p].datatype_handles@[j.0 as int].abilities,
        ) ==> first_datatype_failure(m2, deps, 0) is None,
        (forall|k: int| 0 <= k < i ==> datatype_failure(m, deps, k) is None) && first_datatype_failure(m, deps, i + 1) is None
            && !m2.datatype_handles@[i].abilities.subset_of(deps[p].datatype_handles@[j.0 as int].abilities)
            ==> first_datatype_failure(m2, deps, 0) == Some((i, StatusCode::TYPE_MISMATCH)),
{
    if first_datatype_failure(m, deps, 0) is None {
        lemma_no_datatype_failure_before(m, deps, 0, m.datatype_handles.len() as int);
        lemma_first_datatype_failure_tail(m, deps, i + 1);
        assert(datatype_failure(m, deps, i) is None);
        lemma_datatype_failures_from(m, m2, deps, i, 0);
    }
    if (forall|k: int| 0 <= k < i ==> datatype_failure(m, deps, k) is None) && first_datatype_failure(m, deps, i + 1) is None {
        lemma_datatype_failures_from(m, m2, deps, i, 0);
    }
}

/// Marking a parameter of a local datatype handle phantom where the
/// definition does not makes the pass fail with `TYPE_MISMATCH` at that
/// handle when no earlier handle fails.
pub proof fn lemma_datatype_pass_phantom(m: CompiledModule, m2: CompiledModule, deps: Seq<CompiledModule>, i: int, p: int, j: DatatypeHandleIndex, k: int)
    requires
        datatype_handle_changed(m, m2, i),
        m.datatype_handles@[i].module != m.self_module_handle_idx,
        owner_of(m, deps, m.datatype_handles@[i].module) == Some(p),
        datatype_lookup(deps[p], m.identifier(m.datatype_handles@[i].name)) == Some(j),
        0 <= k < m2.datatype_handles@[i].type_parameters.len(),
        k < deps[p].datatype_handles@[j.0 as int].type_parameters.len(),
        m2.datatype_handles@[i].type_parameters@[k].is_phantom,
        !deps[p].datatype_handles@[j.0 as int].type_parameters@[k].is_phantom,
        forall|q: int| 0 <= q < i ==> datatype_failure(m, deps, q) is None,
        first_datatype_failure(m, deps, i + 1) is None,
    ensures
        first_datatype_failure(m2, deps, 0) == Some((i, StatusCode::TYPE_MISMATCH)),
{
    lemma_phantom_one_way(m2.datatype_handles@[i].type_parameters@, deps[p].datatype_handles@[j.0 as int].type_parameters@, k);
    lemma_datatype_failures_from(m, m2, deps, i, 0);
}

proof fn lemma_no_datatype_failure_before(m: CompiledModule, deps: Seq<CompiledModule>, k: int, n: int)
    requires
        0 <= k,
        first_datatype_failure(m, deps, k) is None,
    ensures
        forall|q: int| k <= q < n && q < m.datatype_handles.len() ==> datatype_failure(m, deps, q) is None,
    decreases m.datatype_handles.len() - k,
{
    if k < m.datatype_handles.len() {
        lemma_no_datatype_failure_before(m, deps, k + 1, n);
    }
}

proof fn lemma_first_datatype_failure_tail(m: CompiledModule, deps: Seq<CompiledModule>, k: int)
    requires
        0 <= k,
        forall|q: int| k <= q < m.datatype_handles.len() ==> datatype_failure(m, deps, q) is None,
    ensures
        first_datatype_failure(m, deps, k) is None,
    decreases m.datatype_handles.len() - k,
{
    if k < m.datatype_handles.len() {
        lemma_first_datatype_failure_tail(m, deps, k + 1);
    }
}


proof fn lemma_tokens_frame(m: CompiledModule, m2: CompiledModule, d: CompiledModule, a: SignatureToken, b: SignatureToken)
    requires
        m2 == (CompiledModule { function_handles: m2.function_handles, ..m }),
    ensures
        tokens_compatible(m2, d, a, b) == tokens_compatible(m, d, a, b),
    decreases a,
{
    match (a, b) {
        (SignatureToken::Vector(x), SignatureToken::Vector(y)) => lemma_tokens_frame(m, m2, d, *x, *y),
        (SignatureToken::Reference(x), SignatureToken::Reference(y)) => lemma_tokens_frame(m, m2, d, *x, *y),
        (SignatureToken::MutableReference(x), SignatureToken::MutableReference(y)) => lemma_tokens_frame(m, m2, d, *x, *y),
        (SignatureToken::DatatypeInstantiation(i1, xs), SignatureToken::DatatypeInstantiation(i2, ys)) => {
            assert forall|k: int| 0 <= k < xs.len() implies tokens_compatible(m2, d, #[trigger] xs[k], ys[k])
                == tokens_compatible(m, d, xs[k], ys[k]) by {
                lemma_tokens_frame(m, m2, d, xs[k], ys[k]);
            }
        },
        _ => {},
    }
}

proof fn lemma_signatures_frame(m: CompiledModule, m2: CompiledModule, d: CompiledModule)
    requires
        m2 == (CompiledModule { function_handles: m2.function_handles, ..m }),
    ensures
        forall|xs: Seq<SignatureToken>, ys: Seq<SignatureToken>|
            #[trigger] signatures_compatible(m2, d, xs, ys) == signatures_compatible(m, d, xs, ys),
{
    assert forall|xs: Seq<SignatureToken>, ys: Seq<SignatureToken>|
        #[trigger] signatures_compatible(m2, d, xs, ys) == signatures_compatible(m, d, xs, ys) by {
        assert forall|k: int| 0 <= k < xs.len() implies tokens_compatible(m2, d, #[trigger] xs[k], ys[k])
            == tokens_compatible(m, d, xs[k], ys[k]) by {
            lemma_tokens_frame(m, m2, d, xs[k], ys[k]);
        }
    }
}

proof fn lemma_function_failures_from(m: CompiledModule, m2: CompiledModule, deps: Seq<CompiledModule>, i: int, k: int)
    requires
        function_handle_changed(m, m2, i),
        0 <= k,
        forall|j: int| k <= j < i ==> function_failure(m, deps, j) is None,
        i < k ==> first_function_failure(m, deps, k) is None,
        k <= i ==> (first_function_failure(m, deps, i + 1) is None),
    ensures
        k <= i ==> first_function_failure(m2, deps, k) == match function_failure(m2, deps, i) {
            Some(c) => Some((i, c)),
            None => None::<(int, StatusCode)>,
        },
        i < k ==> first_function_failure(m2, deps, k) is None,
    decreases m.function_handles.len() - k,
{
    if k < m.function_handles.len() {
        if k != i {
            assert(m2.function_handles@[k] == m.function_handles@[k]);
            let h = m.function_handles@[k];
            if h.module != m.self_module_handle_idx {
                if let Some(p) = owner_of(m, deps, h.module) {
                    lemma_signatures_frame(m, m2, deps[p]);
                }
            }
            assert(function_failure(m2, deps, k) == function_failure(m, deps, k));
        }
        lemma_function_failures_from(m, m2, deps, i, k + 1);
    }
}

proof fn lemma_no_function_failure_before(m: CompiledModule, deps: Seq<CompiledModule>, k: int)
    requires
        0 <= k,
        first_function_failure(m, deps, k) is None,
    ensures
        forall|q: int| k <= q < m.function_handles.len() ==> function_failure(m, deps, q) is None,
    decreases m.function_handles.len() - k,
{
    if k < m.function_handles.len() {
        lemma_no_function_failure_before(m, deps, k + 1);
    }
}

proof fn lemma_first_function_failure_tail(m: CompiledModule, deps: Seq<CompiledModule>, k: int)
    requires
        0 <= k,
        forall|q: int| k <= q < m.function_handles.len() ==> function_failure(m, deps, q) is None,
    ensures
        first_function_failure(m, deps, k) is None,
    decreases m.function_handles.len() - k,
{
    if k < m.function_handles.len() {
        lemma_first_function_failure_tail(m, deps, k + 1);
    }
}

/// Demanding more of the type parameters of an imported function never makes
/// the function pass fail where it succeeded; lacking a constraint of the
/// definition makes it fail with `TYPE_MISMATCH` at that handle when no
/// earlier handle fails.
pub proof fn lemma_function_pass_constraints(m: CompiledModule, m2: CompiledModule, deps: Seq<CompiledModule>, i: int, p: int, j: FunctionHandleIndex)
    requires
        function_handle_changed(m, m2, i),
        m.function_handles@[i].module != m.self_module_handle_idx,
        owner_of(m, deps, m.function_handles@[i].module) == Some(p),
        function_lookup(deps[p], m.identifier(m.function_handles@[i].name), m.self_id()) == Some(j),
    ensures
        first_function_failure(m, deps, 0) is None
            && m2.function_handles@[i].type_parameters.len() == m.function_handles@[i].type_parameters.len()
            && (forall|k: int|
            0 <= k < m.function_handles@[i].type_parameters.len() ==> (#[trigger] m.function_handles@[i].type_parameters@[k]).subset_of(
                m2.function_handles@[i].type_parameters@[k],
            )) ==> first_function_failure(m2, deps, 0) is None,
        (forall|q: int| 0 <= q < i ==> function_failure(m, deps, q) is None) && first_function_failure(m, deps, i + 1) is None
            && (exists|k: int|
            0 <= k < m2.function_handles@[i].type_parameters.len() && !(
            #[trigger] deps[p].function_handles@[j.0 as int].type_parameters@[k]).subset_of(
                m2.function_handles@[i].type_parameters@[k],
            )) ==> first_function_failure(m2, deps, 0) == Some((i, StatusCode::TYPE_MISMATCH)),
{
    let l = m.function_handles@[i].type_parameters@;
    let l2 = m2.function_handles@[i].type_parameters@;
    let d = deps[p].function_handles@[j.0 as int].type_parameters@;
    if first_function_failure(m, deps, 0) is None && l2.len() == l.len() && (forall|k: int|
        0 <= k < l.len() ==> (#[trigger] l[k]).subset_of(l2[k])) {
        lemma_no_function_failure_before(m, deps, 0);
        lemma_first_function_failure_tail(m, deps, i + 1);
        assert(function_failure(m, deps, i) is None);
        lemma_fun_constraints_monotone(l, l2, d);
        lemma_signatures_frame(m, m2, deps[p]);
        lemma_function_failures_from(m, m2, deps, i, 0);
    }
    if (forall|q: int| 0 <= q < i ==> function_failure(m, deps, q) is None) && first_function_failure(m, deps, i + 1) is None
        && (exists|k: int| 0 <= k < l2.len() && !(#[trigger] d[k]).subset_of(l2[k])) {
        let k = choose|k: int| 0 <= k < l2.len() && !(#[trigger] d[k]).subset_of(l2[k]);
        lemma_fun_constraint_dropped(l2, d, k);
        lemma_function_failures_from(m, m2, deps, i, 0);
    }
}


/// Demanding more of the type parameters of an imported datatype never makes
/// the datatype pass fail where it succeeded; lacking a constraint of the
/// definition makes it fail with `TYPE_MISMATCH` at that handle when no
/// earlier handle fails.
pub proof fn lemma_datatype_pass_constraints(m: CompiledModule, m2: CompiledModule, deps: Seq<CompiledModule>, i: int, p: int, j: DatatypeHandleIndex)
    requires
        datatype_handle_changed(m, m2, i),
        m2.datatype_handles@[i].abilities == m.datatype_handles@[i].abilities,
        m.datatype_handles@[i].module != m.self_module_handle_idx,
        owner_of(m, deps, m.datatype_handles@[i].module) == Some(p),
        datatype_lookup(deps[p], m.identifier(m.datatype_handles@[i].name)) == Some(j),
    ensures
        first_datatype_failure(m, deps, 0) is None
            && m2.datatype_handles@[i].type_parameters.len() == m.datatype_handles@[i].type_parameters.len()
            && (forall|k: int|
            0 <= k < m.datatype_handles@[i].type_parameters.len() ==> (#[trigger] m.datatype_handles@[i].type_parameters@[k]).constraints.subset_of(
                m2.datatype_handles@[i].type_parameters@[k].constraints,
            ) && m.datatype_handles@[i].type_parameters@[k].is_phantom == m2.datatype_handles@[i].type_parameters@[k].is_phantom)
            ==> first_datatype_failure(m2, deps, 0) is None,
        (forall|q: int| 0 <= q < i ==> datatype_failure(m, deps, q) is None) && first_datatype_failure(m, deps, i + 1) is None
            && (exists|k: int|
            0 <= k < m2.datatype_handles@[i].type_parameters.len() && !(
            #[trigger] deps[p].datatype_handles@[j.0 as int].type_parameters@[k]).constraints.subset_of(
                m2.datatype_handles@[i].type_parameters@[k].constraints,
            )) ==> first_datatype_failure(m2, deps, 0) == Some((i, StatusCode::TYPE_MISMATCH)),
{
    let l = m.datatype_handles@[i].type_parameters@;
    let l2 = m2.datatype_handles@[i].type_parameters@;
    let d = deps[p].datatype_handles@[j.0 as int].type_parameters@;
    if first_datatype_failure(m, deps, 0) is None && l2.len() == l.len() && (forall|k: int|
        0 <= k < l.len() ==> (#[trigger] l[k]).constraints.subset_of(l2[k].constraints) && l[k].is_phantom == l2[k].is_phantom) {
        lemma_no_datatype_failure_before(m, deps, 0, m.datatype_handles.len() as int);
        lemma_first_datatype_failure_tail(m, deps, i + 1);
        assert(datatype_failure(m, deps, i) is None);
        lemma_datatype_constraints_monotone(l, l2, d);
        lemma_datatype_failures_from(m, m2, deps, i, 0);
    }
    if (forall|q: int| 0 <= q < i ==> datatype_failure(m, deps, q) is None) && first_datatype_failure(m, deps, i + 1) is None
        && (exists|k: int| 0 <= k < l2.len() && !(#[trigger] d[k]).constraints.subset_of(l2[k].constraints)) {
        let k = choose|k: int| 0 <= k < l2.len() && !(#[trigger] d[k]).constraints.subset_of(l2[k].constraints);
        lemma_datatype_constraint_dropped(l2, d, k);
        lemma_datatype_failures_from(m, m2, deps, i, 0);
    }
}

} // verus!
