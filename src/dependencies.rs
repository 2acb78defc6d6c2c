//! Link checking of a module against the modules it depends on: imported
//! modules, datatypes and functions must resolve to compatible definitions,
//! and modules older than `VERSION_5` must keep entry functions callable only
//! from other entry functions.
use vstd::prelude::*;

use crate::file_format::{
    AbilitySet, AccountAddress, Bytecode, CodeOffset, CompiledModule, DatatypeHandle,
    DatatypeHandleIndex, DatatypeTyParameter, EnumDefinition, FunctionDefinition,
    FunctionDefinitionIndex, FunctionHandleIndex, Identifier, ModuleHandle, ModuleHandleIndex,
    ModuleId, ModuleIdView, SignatureToken, StructDefinition, TableIndex, Visibility, VERSION_5,
};
use crate::keyed::{bytes_eq, clone_bytes};

verus! {

#[allow(non_camel_case_types)]
#[derive(Clone, Copy, Debug, PartialEq, Eq, Structural)]
pub enum StatusCode {
    MISSING_DEPENDENCY,
    LOOKUP_FAILED,
    TYPE_MISMATCH,
    CALLED_SCRIPT_VISIBLE_FROM_NON_SCRIPT_VISIBLE,
}

/// The table an error points into.
#[derive(Clone, Copy, Debug, PartialEq, Eq, Structural)]
pub enum IndexKind {
    ModuleHandle,
    DatatypeHandle,
    FunctionHandle,
}

/// Where an error was found: its status, the table entry and the code
/// position it points at.
pub type ErrorSite = (StatusCode, Option<(IndexKind, u16)>, Option<(u16, u16)>);

/// An error found by one of the passes, not yet tied to a module.
#[derive(Debug)]
pub struct PartialVMError {
    pub major_status: StatusCode,
    pub indices: Option<(IndexKind, TableIndex)>,
    pub offset: Option<(FunctionDefinitionIndex, CodeOffset)>,
    pub message: Option<String>,
}

/// An error of the whole check, located at the module that was checked.
#[derive(Debug)]
pub struct VMError {
    pub major_status: StatusCode,
    pub indices: Option<(IndexKind, TableIndex)>,
    pub offset: Option<(FunctionDefinitionIndex, CodeOffset)>,
    pub message: Option<String>,
    pub location: ModuleId,
}

impl PartialVMError {
    pub open spec fn site(&self) -> ErrorSite {
        (
            self.major_status,
            self.indices,
            match self.offset {
                Some((f, o)) => Some((f.0, o)),
                None => None,
            },
        )
    }
}

impl PartialVMError {
    pub open spec fn message_view(&self) -> Option<Seq<char>> {
        match self.message {
            Some(t) => Some(t@),
            None => None,
        }
    }
}

impl VMError {
    pub open spec fn message_view(&self) -> Option<Seq<char>> {
        match self.message {
            Some(t) => Some(t@),
            None => None,
        }
    }

    pub open spec fn site(&self) -> ErrorSite {
        (
            self.major_status,
            self.indices,
            match self.offset {
                Some((f, o)) => Some((f.0, o)),
                None => None,
            },
        )
    }
}

// ---------------------------------------------------------------------------
// The linking index, as mathematics
// ---------------------------------------------------------------------------

/// Position in `deps` of the module that stands for identity `id`: the last
/// one with that identity. The module under check (identity `self_id`) is
/// never its own dependency.
pub open spec fn dep_position(deps: Seq<CompiledModule>, self_id: ModuleIdView, id: ModuleIdView) -> Option<int>
    decreases deps.len(),
{
    if deps.len() == 0 || id == self_id {
        None
    } else if deps.last().self_id() == id {
        Some(deps.len() - 1)
    } else {
        dep_position(deps.drop_last(), self_id, id)
    }
}

/// The dependency that module handle `h` of `m` resolves to, if any.
pub open spec fn owner_of(m: CompiledModule, deps: Seq<CompiledModule>, h: ModuleHandleIndex) -> Option<int> {
    dep_position(deps, m.self_id(), m.handle_id(h))
}

/// The datatype handles that `d` defines, structs first, then enums.
pub open spec fn datatype_def_handles(d: CompiledModule) -> Seq<DatatypeHandleIndex> {
    d.struct_defs@.map_values(|s: StructDefinition| s.struct_handle)
        + d.enum_defs@.map_values(|e: EnumDefinition| e.enum_handle)
}

/// The last handle of `hs` whose name in `d` is `name`.
pub open spec fn last_datatype_named(d: CompiledModule, hs: Seq<DatatypeHandleIndex>, name: Seq<u8>) -> Option<DatatypeHandleIndex>
    decreases hs.len(),
{
    if hs.len() == 0 {
        None
    } else if d.identifier(d.datatype_handles@[hs.last().0 as int].name) == name {
        Some(hs.last())
    } else {
        last_datatype_named(d, hs.drop_last(), name)
    }
}

/// The handle that datatype `name` of dependency `d` is defined under.
pub open spec fn datatype_lookup(d: CompiledModule, name: Seq<u8>) -> Option<DatatypeHandleIndex> {
    last_datatype_named(d, datatype_def_handles(d), name)
}

pub open spec fn function_def_name(d: CompiledModule, fd: FunctionDefinition) -> Seq<u8> {
    d.identifier(d.function_handles@[fd.function.0 as int].name)
}

/// Whether a module with identity `caller` may call `fd` of `d`.
pub open spec fn may_be_called(d: CompiledModule, fd: FunctionDefinition, caller: ModuleIdView) -> bool {
    match fd.visibility {
        Visibility::Public => true,
        Visibility::Friend => d.has_friend(caller),
        Visibility::Private => false,
    }
}

/// The handle of the last definition in `fds` named `name` that `caller`
/// may call.
pub open spec fn last_callable_named(d: CompiledModule, fds: Seq<FunctionDefinition>, name: Seq<u8>, caller: ModuleIdView) -> Option<FunctionHandleIndex>
    decreases fds.len(),
{
    if fds.len() == 0 {
        None
    } else if function_def_name(d, fds.last()) == name && may_be_called(d, fds.last(), caller) {
        Some(fds.last().function)
    } else {
        last_callable_named(d, fds.drop_last(), name, caller)
    }
}

/// The handle, in `d`, of the function `name` that `caller` may call.
pub open spec fn function_lookup(d: CompiledModule, name: Seq<u8>, caller: ModuleIdView) -> Option<FunctionHandleIndex> {
    last_callable_named(d, d.function_defs@, name, caller)
}

/// The last definition in `fds` named `name`, whatever its visibility.
pub open spec fn last_function_named(d: CompiledModule, fds: Seq<FunctionDefinition>, name: Seq<u8>) -> Option<FunctionDefinition>
    decreases fds.len(),
{
    if fds.len() == 0 {
        None
    } else if function_def_name(d, fds.last()) == name {
        Some(fds.last())
    } else {
        last_function_named(d, fds.drop_last(), name)
    }
}

// ---------------------------------------------------------------------------
// Compatibility rules
// ---------------------------------------------------------------------------

/// A local view of a datatype may drop abilities, never add them.
pub open spec fn abilities_compatible(local: AbilitySet, defined: AbilitySet) -> bool {
    local.subset_of(defined)
}

/// A local view of a type parameter must demand at least the defined
/// constraints.
pub open spec fn constraints_compatible(local: AbilitySet, defined: AbilitySet) -> bool {
    defined.subset_of(local)
}

/// A parameter may be phantom locally only where it is phantom in the
/// definition.
pub open spec fn phantom_compatible(local: DatatypeTyParameter, defined: DatatypeTyParameter) -> bool {
    local.is_phantom ==> defined.is_phantom
}

pub open spec fn fun_type_parameters_compatible(local: Seq<AbilitySet>, defined: Seq<AbilitySet>) -> bool {
    &&& local.len() == defined.len()
    &&& forall|k: int| 0 <= k < local.len() ==> constraints_compatible(#[trigger] local[k], defined[k])
}

pub open spec fn datatype_type_parameters_compatible(local: Seq<DatatypeTyParameter>, defined: Seq<DatatypeTyParameter>) -> bool {
    &&& local.len() == defined.len()
    &&& forall|k: int|
        0 <= k < local.len() ==> phantom_compatible(#[trigger] local[k], defined[k])
            && constraints_compatible(local[k].constraints, defined[k].constraints)
}

pub open spec fn datatype_handles_compatible(local: DatatypeHandle, defined: DatatypeHandle) -> bool {
    &&& abilities_compatible(local.abilities, defined.abilities)
    &&& datatype_type_parameters_compatible(local.type_parameters@, defined.type_parameters@)
}

/// Datatype handle `i1` of `m` and handle `i2` of `d` name the same datatype.
pub open spec fn same_datatype(m: CompiledModule, d: CompiledModule, i1: DatatypeHandleIndex, i2: DatatypeHandleIndex) -> bool {
    let h1 = m.datatype_handles@[i1.0 as int];
    let h2 = d.datatype_handles@[i2.0 as int];
    &&& m.handle_id(h1.module) == d.handle_id(h2.module)
    &&& m.identifier(h1.name) == d.identifier(h2.name)
}

/// Token `a`, read in `m`, denotes the same type as token `b`, read in `d`.
pub open spec fn tokens_compatible(m: CompiledModule, d: CompiledModule, a: SignatureToken, b: SignatureToken) -> bool
    decreases a,
{
    match (a, b) {
        (SignatureToken::Bool, SignatureToken::Bool) => true,
        (SignatureToken::U8, SignatureToken::U8) => true,
        (SignatureToken::U16, SignatureToken::U16) => true,
        (SignatureToken::U32, SignatureToken::U32) => true,
        (SignatureToken::U64, SignatureToken::U64) => true,
        (SignatureToken::U128, SignatureToken::U128) => true,
        (SignatureToken::U256, SignatureToken::U256) => true,
        (SignatureToken::Address, SignatureToken::Address) => true,
        (SignatureToken::Signer, SignatureToken::Signer) => true,
        (SignatureToken::Vector(x), SignatureToken::Vector(y)) => tokens_compatible(m, d, *x, *y),
        (SignatureToken::Reference(x), SignatureToken::Reference(y)) => tokens_compatible(m, d, *x, *y),
        (SignatureToken::MutableReference(x), SignatureToken::MutableReference(y)) => tokens_compatible(m, d, *x, *y),
        (SignatureToken::Datatype(i1), SignatureToken::Datatype(i2)) => same_datatype(m, d, i1, i2),
        (SignatureToken::DatatypeInstantiation(i1, xs), SignatureToken::DatatypeInstantiation(i2, ys)) => {
            &&& same_datatype(m, d, i1, i2)
            &&& xs.len() == ys.len()
            &&& forall|k: int| 0 <= k < xs.len() ==> tokens_compatible(m, d, #[trigger] xs[k], ys[k])
        },
        (SignatureToken::TypeParameter(k1), SignatureToken::TypeParameter(k2)) => k1 == k2,
        _ => false,
    }
}

pub open spec fn signatures_compatible(m: CompiledModule, d: CompiledModule, xs: Seq<SignatureToken>, ys: Seq<SignatureToken>) -> bool {
    &&& xs.len() == ys.len()
    &&& forall|k: int| 0 <= k < xs.len() ==> tokens_compatible(m, d, #[trigger] xs[k], ys[k])
}

// ---------------------------------------------------------------------------
// The passes, as mathematics
// ---------------------------------------------------------------------------

pub open spec fn module_handle_missing(m: CompiledModule, deps: Seq<CompiledModule>, i: int) -> bool {
    &&& i != m.self_module_handle_idx.0
    &&& dep_position(deps, m.self_id(), m.module_id_of(m.module_handles@[i])) is None
}

/// The first module handle, from position `i` on, whose module is not supplied.
pub open spec fn first_missing_module(m: CompiledModule, deps: Seq<CompiledModule>, i: int) -> Option<int>
    decreases m.module_handles.len() - i,
{
    if i < 0 || i >= m.module_handles.len() {
        None
    } else if module_handle_missing(m, deps, i) {
        Some(i)
    } else {
        first_missing_module(m, deps, i + 1)
    }
}

/// What is wrong with datatype handle `i` of `m`, if anything.
pub open spec fn datatype_failure(m: CompiledModule, deps: Seq<CompiledModule>, i: int) -> Option<StatusCode> {
    let h = m.datatype_handles@[i];
    if h.module == m.self_module_handle_idx {
        None
    } else {
        match owner_of(m, deps, h.module) {
            None => Some(StatusCode::LOOKUP_FAILED),
            Some(p) => match datatype_lookup(deps[p], m.identifier(h.name)) {
                None => Some(StatusCode::LOOKUP_FAILED),
                Some(j) => if datatype_handles_compatible(h, deps[p].datatype_handles@[j.0 as int]) {
                    None
                } else {
                    Some(StatusCode::TYPE_MISMATCH)
                },
            },
        }
    }
}

pub open spec fn first_datatype_failure(m: CompiledModule, deps: Seq<CompiledModule>, i: int) -> Option<(int, StatusCode)>
    decreases m.datatype_handles.len() - i,
{
    if i < 0 || i >= m.datatype_handles.len() {
        None
    } else {
        match datatype_failure(m, deps, i) {
            Some(c) => Some((i, c)),
            None => first_datatype_failure(m, deps, i + 1),
        }
    }
}

/// What is wrong with function handle `i` of `m`, if anything.
pub open spec fn function_failure(m: CompiledModule, deps: Seq<CompiledModule>, i: int) -> Option<StatusCode> {
    let h = m.function_handles@[i];
    if h.module == m.self_module_handle_idx {
        None
    } else {
        match owner_of(m, deps, h.module) {
            None => Some(StatusCode::LOOKUP_FAILED),
            Some(p) => {
                let d = deps[p];
                match function_lookup(d, m.identifier(h.name), m.self_id()) {
                    None => Some(StatusCode::LOOKUP_FAILED),
                    Some(j) => {
                        let dh = d.function_handles@[j.0 as int];
                        if fun_type_parameters_compatible(h.type_parameters@, dh.type_parameters@)
                            && signatures_compatible(
                                m,
                                d,
                                m.signatures@[h.parameters.0 as int].0@,
                                d.signatures@[dh.parameters.0 as int].0@,
                            ) && signatures_compatible(
                                m,
                                d,
                                m.signatures@[h.return_.0 as int].0@,
                                d.signatures@[dh.return_.0 as int].0@,
                            ) {
                            None
                        } else {
                            Some(StatusCode::TYPE_MISMATCH)
                        }
                    },
                }
            },
        }
    }
}

pub open spec fn first_function_failure(m: CompiledModule, deps: Seq<CompiledModule>, i: int) -> Option<(int, StatusCode)>
    decreases m.function_handles.len() - i,
{
    if i < 0 || i >= m.function_handles.len() {
        None
    } else {
        match function_failure(m, deps, i) {
            Some(c) => Some((i, c)),
            None => first_function_failure(m, deps, i + 1),
        }
    }
}

/// One of the first `n` definitions of `m` is an entry function with handle `h`.
pub open spec fn local_entry_upto(m: CompiledModule, h: int, n: int) -> bool {
    exists|k: int|
        0 <= k < n && k < m.function_defs.len() && (#[trigger] m.function_defs@[k]).function.0 == h
            && m.function_defs@[k].is_entry
}

/// A function defined in `m` at handle `h` that is an entry function.
pub open spec fn local_entry(m: CompiledModule, h: int) -> bool {
    local_entry_upto(m, h, m.function_defs.len() as int)
}

/// The definition, in the dependency that owns it, of the function that
/// non-local function handle `h` of `m` names.
pub open spec fn external_definition(m: CompiledModule, deps: Seq<CompiledModule>, h: int) -> Option<FunctionDefinition> {
    let fh = m.function_handles@[h];
    if fh.module == m.self_module_handle_idx {
        None
    } else {
        match owner_of(m, deps, fh.module) {
            Some(p) => last_function_named(deps[p], deps[p].function_defs@, m.identifier(fh.name)),
            None => None,
        }
    }
}

/// The visibility of the last definition in `fds` of function handle `h`.
pub open spec fn last_local_visibility(fds: Seq<FunctionDefinition>, h: int) -> Option<Visibility>
    decreases fds.len(),
{
    if fds.len() == 0 {
        None
    } else if fds.last().function.0 == h {
        Some(fds.last().visibility)
    } else {
        last_local_visibility(fds.drop_last(), h)
    }
}

/// The visibility of function handle `h` of `m`: that of its definition in
/// its owner when it is imported and found, else that of its local
/// definition, if any.
pub open spec fn function_visibility(m: CompiledModule, deps: Seq<CompiledModule>, h: int) -> Option<Visibility> {
    match external_definition(m, deps, h) {
        Some(fd) => Some(fd.visibility),
        None => last_local_visibility(m.function_defs@, h),
    }
}

/// Function handle `h` of `m` is an entry function of a dependency older
/// than `VERSION_5`.
pub open spec fn external_entry(m: CompiledModule, deps: Seq<CompiledModule>, h: int) -> bool {
    let fh = m.function_handles@[h];
    &&& fh.module != m.self_module_handle_idx
    &&& match owner_of(m, deps, fh.module) {
        Some(p) => deps[p].version < VERSION_5 && match last_function_named(
            deps[p],
            deps[p].function_defs@,
            m.identifier(fh.name),
        ) {
            Some(fd) => fd.is_entry,
            None => false,
        },
        None => false,
    }
}

/// Function handle `h` of `m` is script-visible: callable only from entry
/// functions.
pub open spec fn script_function(m: CompiledModule, deps: Seq<CompiledModule>, h: int) -> bool {
    local_entry(m, h) || external_entry(m, deps, h)
}

/// The function handle an instruction calls, if it is a call.
pub open spec fn callee(m: CompiledModule, instr: Bytecode) -> Option<int> {
    match instr {
        Bytecode::Call(h) => Some(h.0 as int),
        Bytecode::CallGeneric(fi) => Some(m.function_instantiations@[fi.0 as int].handle.0 as int),
        Bytecode::Other => None,
    }
}

/// The function handles of `m`, each marked with whether it is
/// script-visible.
pub open spec fn script_set(m: CompiledModule, deps: Seq<CompiledModule>) -> Seq<bool> {
    Seq::new(m.function_handles.len() as nat, |h: int| script_function(m, deps, h))
}

/// `instr`, in the body of a function that is an entry function exactly when
/// `caller_is_entry`, calls a function that `visible` marks script-visible
/// from a non-entry function.
pub open spec fn script_violation(m: CompiledModule, visible: Seq<bool>, caller_is_entry: bool, instr: Bytecode) -> bool {
    &&& !caller_is_entry
    &&& callee(m, instr) matches Some(h)
    &&& 0 <= h < visible.len()
    &&& visible[h]
}

/// The first offset, from `o` on, at which `code` (the body of a function
/// that is an entry function exactly when `caller_is_entry`) breaks the
/// entry-call rule, for the script-visible handles marked in `visible`.
pub open spec fn first_violation_in_code(m: CompiledModule, visible: Seq<bool>, caller_is_entry: bool, code: Seq<Bytecode>, o: int) -> Option<int>
    decreases code.len() - o,
{
    if o < 0 || o >= code.len() {
        None
    } else if script_violation(m, visible, caller_is_entry, code[o]) {
        Some(o)
    } else {
        first_violation_in_code(m, visible, caller_is_entry, code, o + 1)
    }
}

/// The message of an error: fixed for the entry-call rule, none otherwise.
pub open spec fn expected_message(status: StatusCode) -> Option<Seq<char>> {
    if status == StatusCode::CALLED_SCRIPT_VISIBLE_FROM_NON_SCRIPT_VISIBLE {
        Some("script-visible functions can only be called from scripts or other script-visible functions"@)
    } else {
        None
    }
}

/// The first (definition, offset) pair, from definition `f` on, that breaks
/// the entry-call rule.
pub open spec fn first_script_violation(m: CompiledModule, deps: Seq<CompiledModule>, f: int) -> Option<(int, int)>
    decreases m.function_defs.len() - f,
{
    if f < 0 || f >= m.function_defs.len() {
        None
    } else {
        let fd = m.function_defs@[f];
        match fd.code {
            Some(c) => match first_violation_in_code(m, script_set(m, deps), fd.is_entry, c.code@, 0) {
                Some(o) => Some((f, o)),
                None => first_script_violation(m, deps, f + 1),
            },
            None => first_script_violation(m, deps, f + 1),
        }
    }
}

/// The entry-call rule holds only for modules older than `VERSION_5`.
pub open spec fn script_visibility_failure(m: CompiledModule, deps: Seq<CompiledModule>) -> Option<(int, int)> {
    if m.version >= VERSION_5 {
        None
    } else {
        first_script_violation(m, deps, 0)
    }
}

/// The outcome of checking `m` against `deps`: `None` when it links, else
/// the first error, passes taken in order modules, datatypes, functions,
/// entry calls.
pub open spec fn link_failure(m: CompiledModule, deps: Seq<CompiledModule>) -> Option<ErrorSite> {
    match first_missing_module(m, deps, 0) {
        Some(i) => Some((StatusCode::MISSING_DEPENDENCY, Some((IndexKind::ModuleHandle, i as u16)), None)),
        None => match first_datatype_failure(m, deps, 0) {
            Some((i, c)) => Some((c, Some((IndexKind::DatatypeHandle, i as u16)), None)),
            None => match first_function_failure(m, deps, 0) {
                Some((i, c)) => Some((c, Some((IndexKind::FunctionHandle, i as u16)), None)),
                None => match script_visibility_failure(m, deps) {
                    Some((f, o)) => Some(
                        (StatusCode::CALLED_SCRIPT_VISIBLE_FROM_NON_SCRIPT_VISIBLE, None, Some((f as u16, o as u16))),
                    ),
                    None => None,
                },
            },
        },
    }
}

pub open spec fn all_well_formed(deps: Seq<CompiledModule>) -> bool {
    forall|k: int| 0 <= k < deps.len() ==> (#[trigger] deps[k]).well_formed()
}

// ---------------------------------------------------------------------------
// Lookups
// ---------------------------------------------------------------------------

/// The identity of the module handle `h` of `m`, as an owned value.
pub fn module_id_for_handle(m: &CompiledModule, h: &ModuleHandle) -> (r: ModuleId)
    requires
        m.module_handle_wf(*h),
    ensures
        r@ == m.module_id_of(*h),
{
    ModuleId {
        address: AccountAddress(clone_bytes(&m.address_identifiers[h.address.0 as usize].0)),
        name: Identifier(clone_bytes(&m.identifiers[h.name.0 as usize].0)),
    }
}

/// The identity of `m` itself, as an owned value.
pub fn self_id(m: &CompiledModule) -> (r: ModuleId)
    requires
        m.well_formed(),
    ensures
        r@ == m.self_id(),
{
    module_id_for_handle(m, &m.module_handles[m.self_module_handle_idx.0 as usize])
}

fn ids_equal(m1: &CompiledModule, h1: &ModuleHandle, m2: &CompiledModule, h2: &ModuleHandle) -> (r: bool)
    requires
        m1.module_handle_wf(*h1),
        m2.module_handle_wf(*h2),
    ensures
        r == (m1.module_id_of(*h1) == m2.module_id_of(*h2)),
{
    let a = bytes_eq(
        &m1.address_identifiers[h1.address.0 as usize].0,
        &m2.address_identifiers[h2.address.0 as usize].0,
    );
    let n = bytes_eq(&m1.identifiers[h1.name.0 as usize].0, &m2.identifiers[h2.name.0 as usize].0);
    a && n
}

fn name_equal(m1: &CompiledModule, i1: usize, m2: &CompiledModule, i2: usize) -> (r: bool)
    requires
        i1 < m1.identifiers.len(),
        i2 < m2.identifiers.len(),
    ensures
        r == (m1.identifiers@[i1 as int]@ == m2.identifiers@[i2 as int]@),
{
    bytes_eq(&m1.identifiers[i1].0, &m2.identifiers[i2].0)
}

/// The position in `deps` of the module that handle `h` of `m` names.
fn find_dependency(m: &CompiledModule, deps: &[CompiledModule], h: ModuleHandleIndex) -> (r: Option<usize>)
    requires
        m.well_formed(),
        all_well_formed(deps@),
        (h.0 as int) < m.module_handles.len(),
    ensures
        r matches Some(p) ==> p < deps@.len() && owner_of(*m, deps@, h) == Some(p as int),
        r is None ==> owner_of(*m, deps@, h) is None,
{
    let mh = &m.module_handles[h.0 as usize];
    let sh = &m.module_handles[m.self_module_handle_idx.0 as usize];
    if ids_equal(m, mh, m, sh) {
        return None;
    }
    let ghost id = m.handle_id(h);
    let mut k: usize = deps.len();
    assert(deps@.take(k as int) =~= deps@);
    while k > 0
        invariant
            m.well_formed(),
            all_well_formed(deps@),
            k <= deps@.len(),
            id == m.handle_id(h),
            id != m.self_id(),
            m.module_handle_wf(*mh),
            *mh == m.module_handles@[h.0 as int],
            dep_position(deps@, m.self_id(), id) == dep_position(deps@.take(k as int), m.self_id(), id),
        decreases k,
    {
        let d = &deps[k - 1];
        assert(d.well_formed());
        let dh = &d.module_handles[d.self_module_handle_idx.0 as usize];
        assert(deps@.take(k as int).drop_last() =~= deps@.take(k - 1));
        if ids_equal(d, dh, m, mh) {
            return Some(k - 1);
        }
        k = k - 1;
    }
    None
}

/// The handle under which dependency `d` defines datatype `name`.
fn find_datatype(d: &CompiledModule, m: &CompiledModule, name: usize) -> (r: Option<DatatypeHandleIndex>)
    requires
        d.well_formed(),
        name < m.identifiers.len(),
    ensures
        r == datatype_lookup(*d, m.identifiers@[name as int]@),
        r matches Some(j) ==> (j.0 as int) < d.datatype_handles.len(),
{
    let ghost hs = datatype_def_handles(*d);
    let ghost target = m.identifiers@[name as int]@;
    let ns = d.struct_defs.len();
    let mut k: usize = ns + d.enum_defs.len();
    assert(hs.take(k as int) =~= hs);
    while k > 0
        invariant
            d.well_formed(),
            name < m.identifiers.len(),
            target == m.identifiers@[name as int]@,
            hs == datatype_def_handles(*d),
            ns == d.struct_defs.len(),
            k <= hs.len(),
            datatype_lookup(*d, target) == last_datatype_named(*d, hs.take(k as int), target),
        decreases k,
    {
        let p = k - 1;
        let handle = if p < ns {
            d.struct_defs[p].struct_handle
        } else {
            d.enum_defs[p - ns].enum_handle
        };
        assert(handle == hs[p as int]);
        assert(hs.take(k as int).drop_last() =~= hs.take(p as int));
        let dh = &d.datatype_handles[handle.0 as usize];
        if name_equal(d, dh.name.0 as usize, m, name) {
            return Some(handle);
        }
        k = p;
    }
    None
}

/// Whether `d` declares the module `m` as a friend.
fn is_friend(d: &CompiledModule, m: &CompiledModule) -> (r: bool)
    requires
        d.well_formed(),
        m.well_formed(),
    ensures
        r == d.has_friend(m.self_id()),
{
    let sh = &m.module_handles[m.self_module_handle_idx.0 as usize];
    let mut k: usize = 0;
    while k < d.friend_decls.len()
        invariant
            d.well_formed(),
            m.well_formed(),
            *sh == m.module_handles@[m.self_module_handle_idx.0 as int],
            k <= d.friend_decls.len(),
            forall|j: int| 0 <= j < k ==> d.module_id_of(#[trigger] d.friend_decls@[j]) != m.self_id(),
        decreases d.friend_decls.len() - k,
    {
        if ids_equal(d, &d.friend_decls[k], m, sh) {
            return true;
        }
        k = k + 1;
    }
    false
}

/// The handle, in `d`, of the function named by identifier `name` of `m`
/// that `m` may call.
fn find_callable_function(d: &CompiledModule, m: &CompiledModule, name: usize) -> (r: Option<FunctionHandleIndex>)
    requires
        d.well_formed(),
        m.well_formed(),
        name < m.identifiers.len(),
    ensures
        r == function_lookup(*d, m.identifiers@[name as int]@, m.self_id()),
        r matches Some(j) ==> (j.0 as int) < d.function_handles.len(),
{
    let friend = is_friend(d, m);
    let ghost fds = d.function_defs@;
    let ghost target = m.identifiers@[name as int]@;
    let mut k: usize = d.function_defs.len();
    assert(fds.take(k as int) =~= fds);
    while k > 0
        invariant
            d.well_formed(),
            name < m.identifiers.len(),
            target == m.identifiers@[name as int]@,
            fds == d.function_defs@,
            friend == d.has_friend(m.self_id()),
            k <= fds.len(),
            function_lookup(*d, target, m.self_id()) == last_callable_named(*d, fds.take(k as int), target, m.self_id()),
        decreases k,
    {
        let fd = &d.function_defs[k - 1];
        assert(fds.take(k as int).drop_last() =~= fds.take(k - 1));
        let callable = match fd.visibility {
            Visibility::Public => true,
            Visibility::Friend => friend,
            Visibility::Private => false,
        };
        let fh = &d.function_handles[fd.function.0 as usize];
        if callable && name_equal(d, fh.name.0 as usize, m, name) {
            return Some(fd.function);
        }
        k = k - 1;
    }
    None
}

/// The visibility and entry flag of the last definition in `d` of the
/// function named by identifier `name` of `m`.
fn last_definition(d: &CompiledModule, m: &CompiledModule, name: usize) -> (r: Option<(Visibility, bool)>)
    requires
        d.well_formed(),
        name < m.identifiers.len(),
    ensures
        r == match last_function_named(*d, d.function_defs@, m.identifiers@[name as int]@) {
            Some(fd) => Some((fd.visibility, fd.is_entry)),
            None => None,
        },
{
    let ghost fds = d.function_defs@;
    let ghost target = m.identifiers@[name as int]@;
    let mut k: usize = d.function_defs.len();
    assert(fds.take(k as int) =~= fds);
    while k > 0
        invariant
            d.well_formed(),
            name < m.identifiers.len(),
            target == m.identifiers@[name as int]@,
            fds == d.function_defs@,
            k <= fds.len(),
            last_function_named(*d, fds, target) == last_function_named(*d, fds.take(k as int), target),
        decreases k,
    {
        let fd = &d.function_defs[k - 1];
        assert(fds.take(k as int).drop_last() =~= fds.take(k - 1));
        let fh = &d.function_handles[fd.function.0 as usize];
        if name_equal(d, fh.name.0 as usize, m, name) {
            return Some((fd.visibility, fd.is_entry));
        }
        k = k - 1;
    }
    None
}

// ---------------------------------------------------------------------------
// Compatibility checks
// ---------------------------------------------------------------------------

fn compatible_struct_abilities(local: AbilitySet, defined: AbilitySet) -> (r: bool)
    ensures
        r == abilities_compatible(local, defined),
{
    local.is_subset(defined)
}

fn compatible_type_parameter_constraints(local: AbilitySet, defined: AbilitySet) -> (r: bool)
    ensures
        r == constraints_compatible(local, defined),
{
    defined.is_subset(local)
}

fn compatible_type_parameter_phantom_decl(local: &DatatypeTyParameter, defined: &DatatypeTyParameter) -> (r: bool)
    ensures
        r == phantom_compatible(*local, *defined),
{
    !local.is_phantom || defined.is_phantom
}

fn compatible_fun_type_parameters(local: &Vec<AbilitySet>, defined: &Vec<AbilitySet>) -> (r: bool)
    ensures
        r == fun_type_parameters_compatible(local@, defined@),
{
    if local.len() != defined.len() {
        return false;
    }
    let mut k: usize = 0;
    while k < local.len()
        invariant
            local.len() == defined.len(),
            k <= local.len(),
            forall|j: int| 0 <= j < k ==> constraints_compatible(#[trigger] local@[j], defined@[j]),
        decreases local.len() - k,
    {
        if !compatible_type_parameter_constraints(local[k], defined[k]) {
            return false;
        }
        k = k + 1;
    }
    true
}

fn compatible_struct_type_parameters(local: &Vec<DatatypeTyParameter>, defined: &Vec<DatatypeTyParameter>) -> (r: bool)
    ensures
        r == datatype_type_parameters_compatible(local@, defined@),
{
    if local.len() != defined.len() {
        return false;
    }
    let mut k: usize = 0;
    while k < local.len()
        invariant
            local.len() == defined.len(),
            k <= local.len(),
            forall|j: int|
                0 <= j < k ==> phantom_compatible(#[trigger] local@[j], defined@[j])
                    && constraints_compatible(local@[j].constraints, defined@[j].constraints),
        decreases local.len() - k,
    {
        if !(compatible_type_parameter_phantom_decl(&local[k], &defined[k])
            && compatible_type_parameter_constraints(local[k].constraints, defined[k].constraints)) {
            return false;
        }
        k = k + 1;
    }
    true
}

fn compare_structs(m: &CompiledModule, d: &CompiledModule, i1: DatatypeHandleIndex, i2: DatatypeHandleIndex) -> (r: Result<(), PartialVMError>)
    requires
        m.well_formed(),
        d.well_formed(),
        (i1.0 as int) < m.datatype_handles.len(),
        (i2.0 as int) < d.datatype_handles.len(),
    ensures
        r matches Err(e) ==> e.message_view() == expected_message(e.major_status),
        r is Ok <==> same_datatype(*m, *d, i1, i2),
        r matches Err(e) ==> e.site() == (StatusCode::TYPE_MISMATCH, None::<(IndexKind, u16)>, None::<(u16, u16)>),
{
    let h1 = &m.datatype_handles[i1.0 as usize];
    let h2 = &d.datatype_handles[i2.0 as usize];
    let same_module = ids_equal(
        m,
        &m.module_handles[h1.module.0 as usize],
        d,
        &d.module_handles[h2.module.0 as usize],
    );
    if same_module && name_equal(m, h1.name.0 as usize, d, h2.name.0 as usize) {
        Ok(())
    } else {
        Err(type_mismatch())
    }
}

fn type_mismatch() -> (e: PartialVMError)
    ensures
        e.message_view() is None,
        e.site() == (StatusCode::TYPE_MISMATCH, None::<(IndexKind, u16)>, None::<(u16, u16)>),
{
    PartialVMError { major_status: StatusCode::TYPE_MISMATCH, indices: None, offset: None, message: None }
}

fn compare_types(m: &CompiledModule, d: &CompiledModule, handle_type: &SignatureToken, def_type: &SignatureToken) -> (r: Result<(), PartialVMError>)
    requires
        m.well_formed(),
        d.well_formed(),
        m.token_wf(*handle_type),
        d.token_wf(*def_type),
    ensures
        r matches Err(e) ==> e.message_view() == expected_message(e.major_status),
        r is Ok <==> tokens_compatible(*m, *d, *handle_type, *def_type),
        r matches Err(e) ==> e.site() == (StatusCode::TYPE_MISMATCH, None::<(IndexKind, u16)>, None::<(u16, u16)>),
    decreases handle_type,
{
    match (handle_type, def_type) {
        (SignatureToken::Bool, SignatureToken::Bool)
        | (SignatureToken::U8, SignatureToken::U8)
        | (SignatureToken::U16, SignatureToken::U16)
        | (SignatureToken::U32, SignatureToken::U32)
        | (SignatureToken::U64, SignatureToken::U64)
        | (SignatureToken::U128, SignatureToken::U128)
        | (SignatureToken::U256, SignatureToken::U256)
        | (SignatureToken::Address, SignatureToken::Address)
        | (SignatureToken::Signer, SignatureToken::Signer) => Ok(()),
        (SignatureToken::Vector(ty1), SignatureToken::Vector(ty2)) => compare_types(m, d, ty1, ty2),
        (SignatureToken::Datatype(idx1), SignatureToken::Datatype(idx2)) => compare_structs(m, d, *idx1, *idx2),
        (SignatureToken::DatatypeInstantiation(idx1, args1), SignatureToken::DatatypeInstantiation(idx2, args2)) => {
            compare_structs(m, d, *idx1, *idx2)?;
            compare_cross_module_signatures(m, d, args1, args2)
        },
        (SignatureToken::Reference(ty1), SignatureToken::Reference(ty2)) => compare_types(m, d, ty1, ty2),
        (SignatureToken::MutableReference(ty1), SignatureToken::MutableReference(ty2)) => compare_types(m, d, ty1, ty2),
        (SignatureToken::TypeParameter(idx1), SignatureToken::TypeParameter(idx2)) => {
            if idx1 != idx2 {
                Err(type_mismatch())
            } else {
                Ok(())
            }
        },
        _ => Err(type_mismatch()),
    }
}

fn compare_cross_module_signatures(m: &CompiledModule, d: &CompiledModule, handle_sig: &Vec<SignatureToken>, def_sig: &Vec<SignatureToken>) -> (r: Result<(), PartialVMError>)
    requires
        m.well_formed(),
        d.well_formed(),
        m.tokens_wf(handle_sig@),
        d.tokens_wf(def_sig@),
    ensures
        r matches Err(e) ==> e.message_view() == expected_message(e.major_status),
        r is Ok <==> signatures_compatible(*m, *d, handle_sig@, def_sig@),
        r matches Err(e) ==> e.site() == (StatusCode::TYPE_MISMATCH, None::<(IndexKind, u16)>, None::<(u16, u16)>),
    decreases handle_sig,
{
    if handle_sig.len() != def_sig.len() {
        return Err(type_mismatch());
    }
    let mut k: usize = 0;
    while k < handle_sig.len()
        invariant
            m.well_formed(),
            d.well_formed(),
            m.tokens_wf(handle_sig@),
            d.tokens_wf(def_sig@),
            handle_sig.len() == def_sig.len(),
            k <= handle_sig.len(),
            forall|j: int| 0 <= j < k ==> tokens_compatible(*m, *d, #[trigger] handle_sig@[j], def_sig@[j]),
        decreases handle_sig.len() - k,
    {
        assert(m.token_wf(handle_sig@[k as int]));
        assert(d.token_wf(def_sig@[k as int]));
        compare_types(m, d, &handle_sig[k], &def_sig[k])?;
        k = k + 1;
    }
    Ok(())
}

// ---------------------------------------------------------------------------
// The linking index and the passes
// ---------------------------------------------------------------------------

/// What the passes share: the module under check, its candidate
/// dependencies (looked up by identity, the last one winning, the module
/// itself excluded), the visibility of each of its function handles, and,
/// for modules older than `VERSION_5`, which of its function handles are
/// script-visible.
pub(crate) struct Context<'a, 'b> {
    pub(crate) module: &'a CompiledModule,
    pub(crate) dependencies: &'b [CompiledModule],
    pub(crate) function_visibilities: Vec<Option<Visibility>>,
    pub(crate) script_functions: Option<Vec<bool>>,
}

impl<'a, 'b> Context<'a, 'b> {
    pub(crate) open spec fn wf(&self) -> bool {
        &&& self.module.well_formed()
        &&& all_well_formed(self.dependencies@)
        &&& self.function_visibilities.len() == self.module.function_handles.len()
        &&& forall|h: int|
            0 <= h < self.function_visibilities.len() ==> #[trigger] self.function_visibilities@[h]
                == function_visibility(*self.module, self.dependencies@, h)
        &&& (self.script_functions is Some <==> self.module.version < VERSION_5)
        &&& self.script_functions matches Some(s) ==> s@ == script_set(*self.module, self.dependencies@)
    }

    pub(crate) fn new(module: &'a CompiledModule, dependencies: &'b [CompiledModule]) -> (r: Self)
        requires
            module.well_formed(),
            all_well_formed(dependencies@),
        ensures
            r.wf(),
            r.module == module,
            r.dependencies@ == dependencies@,
    {
        let ghost m = *module;
        let ghost deps = dependencies@;
        let n = module.function_handles.len();
        let mut s: Vec<bool> = Vec::new();
        let mut vis: Vec<Option<Visibility>> = Vec::new();
        let mut i: usize = 0;
        while i < n
            invariant
                n == module.function_handles.len(),
                i <= n,
                s.len() == i,
                vis.len() == i,
                forall|h: int| 0 <= h < i ==> !#[trigger] s@[h],
                forall|h: int| 0 <= h < i ==> #[trigger] vis@[h] is None,
            decreases n - i,
        {
            s.push(false);
            vis.push(None);
            i = i + 1;
        }
        // local definitions
        let mut k: usize = 0;
        while k < module.function_defs.len()
            invariant
                m == *module,
                module.well_formed(),
                n == module.function_handles.len(),
                s.len() == n,
                vis.len() == n,
                k <= module.function_defs.len(),
                forall|h: int| 0 <= h < n ==> #[trigger] s@[h] == local_entry_upto(m, h, k as int),
                forall|h: int| 0 <= h < n ==> #[trigger] vis@[h] == last_local_visibility(m.function_defs@.take(k as int), h),
            decreases module.function_defs.len() - k,
        {
            let fd = &module.function_defs[k];
            assert(m.function_defs@[k as int] == *fd);
            vis.set(fd.function.0 as usize, Some(fd.visibility));
            if fd.is_entry {
                s.set(fd.function.0 as usize, true);
            }
            assert(m.function_defs@.take(k + 1).drop_last() =~= m.function_defs@.take(k as int));
            assert(m.function_defs@.take(k + 1).last() == *fd);
            assert forall|h: int| 0 <= h < n implies #[trigger] s@[h] == local_entry_upto(m, h, k + 1) by {
                if local_entry_upto(m, h, k + 1) {
                    let j = choose|j: int|
                        0 <= j < k + 1 && j < m.function_defs.len() && (#[trigger] m.function_defs@[j]).function.0 == h
                            && m.function_defs@[j].is_entry;
                    if j < k {
                        assert(local_entry_upto(m, h, k as int));
                    }
                }
                if local_entry_upto(m, h, k as int) {
                    let j = choose|j: int|
                        0 <= j < k && j < m.function_defs.len() && (#[trigger] m.function_defs@[j]).function.0 == h
                            && m.function_defs@[j].is_entry;
                    assert(0 <= j < k + 1);
                }
                if fd.is_entry && h == fd.function.0 {
                    assert(m.function_defs@[k as int].function.0 == h);
                }
            }
            k = k + 1;
        }
        assert(m.function_defs@.take(m.function_defs.len() as int) =~= m.function_defs@);
        // definitions in dependencies
        let mut i: usize = 0;
        while i < n
            invariant
                m == *module,
                deps == dependencies@,
                module.well_formed(),
                all_well_formed(deps),
                n == module.function_handles.len(),
                s.len() == n,
                vis.len() == n,
                i <= n,
                forall|h: int|
                    0 <= h < n ==> #[trigger] s@[h] == (local_entry(m, h) || (h < i && external_entry(m, deps, h))),
                forall|h: int|
                    0 <= h < n ==> #[trigger] vis@[h] == if h < i {
                        function_visibility(m, deps, h)
                    } else {
                        last_local_visibility(m.function_defs@, h)
                    },
            decreases n - i,
        {
            let fh = &module.function_handles[i];
            assert(m.function_handles@[i as int] == *fh);
            let found = if fh.module != module.self_module_handle_idx {
                match find_dependency(module, dependencies, fh.module) {
                    Some(p) => {
                        let dep = &dependencies[p];
                        assert(deps[p as int].well_formed());
                        match last_definition(dep, module, fh.name.0 as usize) {
                            Some((visibility, is_entry)) => Some((visibility, dep.version < VERSION_5 && is_entry)),
                            None => None,
                        }
                    },
                    None => None,
                }
            } else {
                None
            };
            match found {
                Some((visibility, script_visible)) => {
                    vis.set(i, Some(visibility));
                    if script_visible {
                        s.set(i, true);
                    }
                    assert(script_visible == external_entry(m, deps, i as int));
                },
                None => {
                    assert(!external_entry(m, deps, i as int));
                },
            }
            i = i + 1;
        }
        assert(s@ =~= script_set(m, deps));
        let script_functions = if module.version < VERSION_5 {
            Some(s)
        } else {
            None
        };
        Context { module, dependencies, function_visibilities: vis, script_functions }
    }
}

fn at_index(e: PartialVMError, kind: IndexKind, idx: usize) -> (r: PartialVMError)
    requires
        idx < 65536,
    ensures
        r.site() == (e.site().0, Some((kind, idx as u16)), e.site().2),
        r.message_view() == e.message_view(),
{
    PartialVMError { major_status: e.major_status, indices: Some((kind, idx as u16)), offset: e.offset, message: e.message }
}

fn verification_error(status: StatusCode, kind: IndexKind, idx: usize) -> (r: PartialVMError)
    requires
        idx < 65536,
    ensures
        r.site() == (status, Some((kind, idx as u16)), None::<(u16, u16)>),
        r.message_view() is None,
{
    PartialVMError { major_status: status, indices: Some((kind, idx as u16)), offset: None, message: None }
}

fn verify_imported_modules(context: &Context) -> (r: Result<(), PartialVMError>)
    requires
        context.wf(),
    ensures
        r matches Err(e) ==> e.message_view() == expected_message(e.major_status),
        match first_missing_module(*context.module, context.dependencies@, 0) {
            None => r is Ok,
            Some(i) => r matches Err(e) && e.site() == (
                StatusCode::MISSING_DEPENDENCY,
                Some((IndexKind::ModuleHandle, i as u16)),
                None::<(u16, u16)>,
            ),
        },
{
    let module = context.module;
    let ghost m = *module;
    let ghost deps = context.dependencies@;
    let mut idx: usize = 0;
    while idx < module.module_handles.len()
        invariant
            context.wf(),
            module == context.module,
            m == *module,
            deps == context.dependencies@,
            idx <= module.module_handles.len(),
            first_missing_module(m, deps, 0) == first_missing_module(m, deps, idx as int),
        decreases module.module_handles.len() - idx,
    {
        if idx != module.self_module_handle_idx.0 as usize
            && find_dependency(module, context.dependencies, ModuleHandleIndex(idx as u16)).is_none() {
            return Err(verification_error(StatusCode::MISSING_DEPENDENCY, IndexKind::ModuleHandle, idx));
        }
        idx = idx + 1;
    }
    Ok(())
}

fn verify_imported_structs(context: &Context) -> (r: Result<(), PartialVMError>)
    requires
        context.wf(),
    ensures
        r matches Err(e) ==> e.message_view() == expected_message(e.major_status),
        match first_datatype_failure(*context.module, context.dependencies@, 0) {
            None => r is Ok,
            Some((i, c)) => r matches Err(e) && e.site() == (
                c,
                Some((IndexKind::DatatypeHandle, i as u16)),
                None::<(u16, u16)>,
            ),
        },
{
    let module = context.module;
    let ghost m = *module;
    let ghost deps = context.dependencies@;
    let mut idx: usize = 0;
    while idx < module.datatype_handles.len()
        invariant
            context.wf(),
            module == context.module,
            m == *module,
            deps == context.dependencies@,
            idx <= module.datatype_handles.len(),
            first_datatype_failure(m, deps, 0) == first_datatype_failure(m, deps, idx as int),
        decreases module.datatype_handles.len() - idx,
    {
        let handle = &module.datatype_handles[idx];
        assert(m.datatype_handles@[idx as int] == *handle);
        if handle.module != module.self_module_handle_idx {
            let owner = match find_dependency(module, context.dependencies, handle.module) {
                Some(p) => p,
                None => {
                    return Err(verification_error(StatusCode::LOOKUP_FAILED, IndexKind::DatatypeHandle, idx));
                },
            };
            let dep = &context.dependencies[owner];
            assert(deps[owner as int].well_formed());
            match find_datatype(dep, module, handle.name.0 as usize) {
                Some(def_idx) => {
                    let def_handle = &dep.datatype_handles[def_idx.0 as usize];
                    if !compatible_struct_abilities(handle.abilities, def_handle.abilities)
                        || !compatible_struct_type_parameters(&handle.type_parameters, &def_handle.type_parameters) {
                        return Err(verification_error(StatusCode::TYPE_MISMATCH, IndexKind::DatatypeHandle, idx));
                    }
                },
                None => {
                    return Err(verification_error(StatusCode::LOOKUP_FAILED, IndexKind::DatatypeHandle, idx));
                },
            }
        }
        idx = idx + 1;
    }
    Ok(())
}

fn verify_imported_functions(context: &Context) -> (r: Result<(), PartialVMError>)
    requires
        context.wf(),
    ensures
        r matches Err(e) ==> e.message_view() == expected_message(e.major_status),
        match first_function_failure(*context.module, context.dependencies@, 0) {
            None => r is Ok,
            Some((i, c)) => r matches Err(e) && e.site() == (
                c,
                Some((IndexKind::FunctionHandle, i as u16)),
                None::<(u16, u16)>,
            ),
        },
{
    let module = context.module;
    let ghost m = *module;
    let ghost deps = context.dependencies@;
    let mut idx: usize = 0;
    while idx < module.function_handles.len()
        invariant
            context.wf(),
            module == context.module,
            m == *module,
            deps == context.dependencies@,
            idx <= module.function_handles.len(),
            first_function_failure(m, deps, 0) == first_function_failure(m, deps, idx as int),
        decreases module.function_handles.len() - idx,
    {
        let handle = &module.function_handles[idx];
        assert(m.function_handles@[idx as int] == *handle);
        if handle.module != module.self_module_handle_idx {
            let owner = match find_dependency(module, context.dependencies, handle.module) {
                Some(p) => p,
                None => {
                    return Err(verification_error(StatusCode::LOOKUP_FAILED, IndexKind::FunctionHandle, idx));
                },
            };
            let dep = &context.dependencies[owner];
            assert(deps[owner as int].well_formed());
            match find_callable_function(dep, module, handle.name.0 as usize) {
                Some(def_idx) => {
                    let def_handle = &dep.function_handles[def_idx.0 as usize];
                    if !compatible_fun_type_parameters(&handle.type_parameters, &def_handle.type_parameters) {
                        return Err(verification_error(StatusCode::TYPE_MISMATCH, IndexKind::FunctionHandle, idx));
                    }
                    let handle_params = &module.signatures[handle.parameters.0 as usize];
                    let def_params = &dep.signatures[def_handle.parameters.0 as usize];
                    assert(m.tokens_wf(handle_params.0@));
                    assert(dep.tokens_wf(def_params.0@));
                    match compare_cross_module_signatures(module, dep, &handle_params.0, &def_params.0) {
                        Ok(()) => {},
                        Err(e) => {
                            return Err(at_index(e, IndexKind::FunctionHandle, idx));
                        },
                    }
                    let handle_return = &module.signatures[handle.return_.0 as usize];
                    let def_return = &dep.signatures[def_handle.return_.0 as usize];
                    assert(m.tokens_wf(handle_return.0@));
                    assert(dep.tokens_wf(def_return.0@));
                    match compare_cross_module_signatures(module, dep, &handle_return.0, &def_return.0) {
                        Ok(()) => {},
                        Err(e) => {
                            return Err(at_index(e, IndexKind::FunctionHandle, idx));
                        },
                    }
                },
                None => {
                    return Err(verification_error(StatusCode::LOOKUP_FAILED, IndexKind::FunctionHandle, idx));
                },
            }
        }
        idx = idx + 1;
    }
    Ok(())
}

fn verify_script_visibility_usage(
    module: &CompiledModule,
    script_functions: &Vec<bool>,
    current_is_entry: bool,
    fdef_idx: FunctionDefinitionIndex,
    code: &Vec<Bytecode>,
) -> (r: Result<(), PartialVMError>)
    requires
        module.well_formed(),
        module.code_wf(code@),
    ensures
        match first_violation_in_code(*module, script_functions@, current_is_entry, code@, 0) {
            None => r is Ok,
            Some(o) => r matches Err(e) && e.site() == (
                StatusCode::CALLED_SCRIPT_VISIBLE_FROM_NON_SCRIPT_VISIBLE,
                None::<(IndexKind, u16)>,
                Some((fdef_idx.0, o as u16)),
            ) && e.message_view() == expected_message(e.major_status),
        },
{
    let ghost m = *module;
    let mut idx: usize = 0;
    while idx < code.len()
        invariant
            m == *module,
            module.well_formed(),
            module.code_wf(code@),
            idx <= code.len(),
            first_violation_in_code(m, script_functions@, current_is_entry, code@, 0) == first_violation_in_code(
                m,
                script_functions@,
                current_is_entry,
                code@,
                idx as int,
            ),
        decreases code.len() - idx,
    {
        let instr = code[idx];
        assert(code@[idx as int] == instr);
        let fhandle_idx = match instr {
            Bytecode::Call(h) => h,
            Bytecode::CallGeneric(fi) => module.function_instantiations[fi.0 as usize].handle,
            Bytecode::Other => {
                idx = idx + 1;
                continue;
            },
        };
        let h = fhandle_idx.0 as usize;
        if !current_is_entry && h < script_functions.len() && script_functions[h] {
            let message = "script-visible functions can only be called from scripts or other script-visible functions".to_owned();
            proof {
                reveal_strlit("script-visible functions can only be called from scripts or other script-visible functions");
            }
            return Err(
                PartialVMError {
                    major_status: StatusCode::CALLED_SCRIPT_VISIBLE_FROM_NON_SCRIPT_VISIBLE,
                    indices: None,
                    offset: Some((fdef_idx, idx as u16)),
                    message: Some(message),
                },
            );
        }
        idx = idx + 1;
    }
    Ok(())
}

fn verify_all_script_visibility_usage(context: &Context) -> (r: Result<(), PartialVMError>)
    requires
        context.wf(),
    ensures
        r matches Err(e) ==> e.message_view() == expected_message(e.major_status),
        match script_visibility_failure(*context.module, context.dependencies@) {
            None => r is Ok,
            Some((f, o)) => r matches Err(e) && e.site() == (
                StatusCode::CALLED_SCRIPT_VISIBLE_FROM_NON_SCRIPT_VISIBLE,
                None::<(IndexKind, u16)>,
                Some((f as u16, o as u16)),
            ),
        },
{
    let script_functions = match &context.script_functions {
        None => return Ok(()),
        Some(s) => s,
    };
    let m = context.module;
    let ghost deps = context.dependencies@;
    let mut idx: usize = 0;
    while idx < m.function_defs.len()
        invariant
            context.wf(),
            m == context.module,
            deps == context.dependencies@,
            context.script_functions == Some(*script_functions),
            m.version < VERSION_5,
            idx <= m.function_defs.len(),
            first_script_violation(*m, deps, 0) == first_script_violation(*m, deps, idx as int),
        decreases m.function_defs.len() - idx,
    {
        let fdef = &m.function_defs[idx];
        assert(m.function_defs@[idx as int] == *fdef);
        match &fdef.code {
            None => {},
            Some(code) => {
                verify_script_visibility_usage(
                    m,
                    script_functions,
                    fdef.is_entry,
                    FunctionDefinitionIndex(idx as u16),
                    &code.code,
                )?;
            },
        }
        idx = idx + 1;
    }
    Ok(())
}

fn verify_module_impl(module: &CompiledModule, dependencies: &[CompiledModule]) -> (r: Result<(), PartialVMError>)
    requires
        module.well_formed(),
        all_well_formed(dependencies@),
    ensures
        r matches Err(e) ==> e.message_view() == expected_message(e.major_status),
        match link_failure(*module, dependencies@) {
            None => r is Ok,
            Some(site) => r matches Err(e) && e.site() == site,
        },
{
    let context = Context::new(module, dependencies);
    verify_imported_modules(&context)?;
    verify_imported_structs(&context)?;
    verify_imported_functions(&context)?;
    verify_all_script_visibility_usage(&context)
}

/// Checks that `module` links against `dependencies`: each imported module
/// is supplied, each imported datatype and function exists in its owner,
/// may be used from `module`, and has a compatible shape; and, for modules
/// older than `VERSION_5`, that only entry functions call entry functions.
/// The first error found is returned, located at `module`.
pub fn verify_module(module: &CompiledModule, dependencies: &[CompiledModule]) -> (r: Result<(), VMError>)
    requires
        module.well_formed(),
        all_well_formed(dependencies@),
    ensures
        r matches Err(e) ==> e.message_view() == expected_message(e.major_status),
        match link_failure(*module, dependencies@) {
            None => r is Ok,
            Some(site) => r matches Err(e) && e.site() == site && e.location@ == module.self_id(),
        },
{
    match verify_module_impl(module, dependencies) {
        Ok(()) => Ok(()),
        Err(e) => Err(
            VMError {
                major_status: e.major_status,
                indices: e.indices,
                offset: e.offset,
                message: e.message,
                location: self_id(module),
            },
        ),
    }
}

} // verus!
