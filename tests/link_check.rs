use move_bytecode_verifier::dependencies::{verify_module, IndexKind, StatusCode, VMError};
use move_bytecode_verifier::file_format::{
    AbilitySet, AccountAddress, AddressIdentifierIndex, Bytecode, CodeUnit, CompiledModule,
    DatatypeHandle, DatatypeHandleIndex, DatatypeTyParameter, EnumDefinition, FunctionDefinition,
    FunctionHandle, FunctionHandleIndex, FunctionInstantiation, FunctionInstantiationIndex,
    Identifier, IdentifierIndex, ModuleHandle, ModuleHandleIndex, Signature, SignatureIndex,
    SignatureToken, StructDefinition, Visibility,
};

fn ident(s: &str) -> Identifier {
    Identifier(s.as_bytes().to_vec())
}

fn addr(b: u8) -> AccountAddress {
    let mut v = vec![0u8; 32];
    v[31] = b;
    AccountAddress(v)
}

fn abilities(copy: bool, drop: bool, store: bool, key: bool) -> AbilitySet {
    AbilitySet { copy, drop, store, key }
}

/// A module `address::name` with only its own handle and an empty signature.
fn module(version: u32, address: u8, name: &str) -> CompiledModule {
    CompiledModule {
        version,
        self_module_handle_idx: ModuleHandleIndex(0),
        module_handles: vec![ModuleHandle { address: AddressIdentifierIndex(0), name: IdentifierIndex(0) }],
        datatype_handles: vec![],
        function_handles: vec![],
        function_instantiations: vec![],
        signatures: vec![Signature(vec![])],
        identifiers: vec![ident(name)],
        address_identifiers: vec![addr(address)],
        struct_defs: vec![],
        enum_defs: vec![],
        function_defs: vec![],
        friend_decls: vec![],
    }
}

fn add_identifier(m: &mut CompiledModule, s: &str) -> IdentifierIndex {
    m.identifiers.push(ident(s));
    IdentifierIndex((m.identifiers.len() - 1) as u16)
}

fn add_module_handle(m: &mut CompiledModule, address: u8, name: &str) -> ModuleHandleIndex {
    m.address_identifiers.push(addr(address));
    let a = AddressIdentifierIndex((m.address_identifiers.len() - 1) as u16);
    let n = add_identifier(m, name);
    m.module_handles.push(ModuleHandle { address: a, name: n });
    ModuleHandleIndex((m.module_handles.len() - 1) as u16)
}

fn add_friend(m: &mut CompiledModule, address: u8, name: &str) {
    m.address_identifiers.push(addr(address));
    let a = AddressIdentifierIndex((m.address_identifiers.len() - 1) as u16);
    let n = add_identifier(m, name);
    m.friend_decls.push(ModuleHandle { address: a, name: n });
}

fn add_signature(m: &mut CompiledModule, tokens: Vec<SignatureToken>) -> SignatureIndex {
    m.signatures.push(Signature(tokens));
    SignatureIndex((m.signatures.len() - 1) as u16)
}

fn add_datatype(
    m: &mut CompiledModule,
    owner: ModuleHandleIndex,
    name: &str,
    abilities: AbilitySet,
    type_parameters: Vec<DatatypeTyParameter>,
) -> DatatypeHandleIndex {
    let n = add_identifier(m, name);
    m.datatype_handles.push(DatatypeHandle { module: owner, name: n, abilities, type_parameters });
    DatatypeHandleIndex((m.datatype_handles.len() - 1) as u16)
}

fn add_function(
    m: &mut CompiledModule,
    owner: ModuleHandleIndex,
    name: &str,
    params: Vec<SignatureToken>,
    type_parameters: Vec<AbilitySet>,
) -> FunctionHandleIndex {
    let n = add_identifier(m, name);
    let p = add_signature(m, params);
    m.function_handles.push(FunctionHandle {
        module: owner,
        name: n,
        parameters: p,
        return_: SignatureIndex(0),
        type_parameters,
    });
    FunctionHandleIndex((m.function_handles.len() - 1) as u16)
}

fn define(m: &mut CompiledModule, f: FunctionHandleIndex, visibility: Visibility, is_entry: bool, code: Vec<Bytecode>) {
    m.function_defs.push(FunctionDefinition { function: f, visibility, is_entry, code: Some(CodeUnit { code }) });
}

fn site(e: &VMError) -> (StatusCode, Option<(IndexKind, u16)>, Option<(u16, u16)>) {
    (e.major_status, e.indices, e.offset.map(|(f, o)| (f.0, o)))
}

/// Dependency `0x1::A` defining `f(params)` with the given visibility and
/// type parameters.
fn dep_with_function(params: Vec<SignatureToken>, visibility: Visibility, tps: Vec<AbilitySet>) -> CompiledModule {
    let mut d = module(6, 1, "A");
    let f = add_function(&mut d, ModuleHandleIndex(0), "f", params, tps);
    define(&mut d, f, visibility, false, vec![]);
    d
}

/// Module `0x2::M` importing `0x1::A::f(params)`.
fn importer(params: Vec<SignatureToken>, tps: Vec<AbilitySet>) -> CompiledModule {
    let mut m = module(6, 2, "M");
    let a = add_module_handle(&mut m, 1, "A");
    add_function(&mut m, a, "f", params, tps);
    m
}

#[test]
fn missing_module_is_reported() {
    let mut m = module(6, 2, "M");
    let a = add_module_handle(&mut m, 1, "A");
    let e = verify_module(&m, &[]).unwrap_err();
    assert_eq!(site(&e), (StatusCode::MISSING_DEPENDENCY, Some((IndexKind::ModuleHandle, a.0)), None));
    assert_eq!(e.message, None);
    assert_eq!(e.location.name, ident("M"));
    assert_eq!(e.location.address, addr(2));
}

#[test]
fn ability_widening_rejected() {
    let mut d = module(6, 1, "A");
    let s = add_datatype(&mut d, ModuleHandleIndex(0), "S", abilities(true, false, false, false), vec![]);
    d.struct_defs.push(StructDefinition { struct_handle: s });
    let mut m = module(6, 2, "M");
    let a = add_module_handle(&mut m, 1, "A");
    add_datatype(&mut m, a, "S", abilities(true, true, false, false), vec![]);
    let e = verify_module(&m, &[d]).unwrap_err();
    assert_eq!(site(&e), (StatusCode::TYPE_MISMATCH, Some((IndexKind::DatatypeHandle, 0)), None));
}

#[test]
fn ability_shrinking_accepted() {
    let mut d = module(6, 1, "A");
    let s = add_datatype(&mut d, ModuleHandleIndex(0), "S", abilities(true, true, true, false), vec![]);
    d.struct_defs.push(StructDefinition { struct_handle: s });
    for local in [abilities(true, true, true, false), abilities(true, false, false, false), AbilitySet::empty()] {
        let mut m = module(6, 2, "M");
        let a = add_module_handle(&mut m, 1, "A");
        add_datatype(&mut m, a, "S", local, vec![]);
        assert!(verify_module(&m, std::slice::from_ref(&d)).is_ok());
    }
}

#[test]
fn enum_definitions_resolve() {
    let mut d = module(6, 1, "A");
    let s = add_datatype(&mut d, ModuleHandleIndex(0), "E", abilities(true, true, false, false), vec![]);
    d.enum_defs.push(EnumDefinition { enum_handle: s });
    let mut m = module(6, 2, "M");
    let a = add_module_handle(&mut m, 1, "A");
    add_datatype(&mut m, a, "E", abilities(true, false, false, false), vec![]);
    assert!(verify_module(&m, &[d]).is_ok());
}

#[test]
fn missing_datatype_lookup_failed() {
    let d = module(6, 1, "A");
    let mut m = module(6, 2, "M");
    let a = add_module_handle(&mut m, 1, "A");
    add_datatype(&mut m, a, "S", AbilitySet::empty(), vec![]);
    let e = verify_module(&m, &[d]).unwrap_err();
    assert_eq!(site(&e), (StatusCode::LOOKUP_FAILED, Some((IndexKind::DatatypeHandle, 0)), None));
}

fn tp(constraints: AbilitySet, is_phantom: bool) -> DatatypeTyParameter {
    DatatypeTyParameter { constraints, is_phantom }
}

fn datatype_pair(local: Vec<DatatypeTyParameter>, defined: Vec<DatatypeTyParameter>) -> Result<(), VMError> {
    let mut d = module(6, 1, "A");
    let s = add_datatype(&mut d, ModuleHandleIndex(0), "S", AbilitySet::all(), defined);
    d.struct_defs.push(StructDefinition { struct_handle: s });
    let mut m = module(6, 2, "M");
    let a = add_module_handle(&mut m, 1, "A");
    add_datatype(&mut m, a, "S", AbilitySet::all(), local);
    verify_module(&m, &[d])
}

#[test]
fn phantom_only_one_way() {
    let c = abilities(true, false, false, false);
    let e = datatype_pair(vec![tp(c, true)], vec![tp(c, false)]).unwrap_err();
    assert_eq!(site(&e), (StatusCode::TYPE_MISMATCH, Some((IndexKind::DatatypeHandle, 0)), None));
    assert!(datatype_pair(vec![tp(c, false)], vec![tp(c, true)]).is_ok());
    assert!(datatype_pair(vec![tp(c, true)], vec![tp(c, true)]).is_ok());
}

#[test]
fn datatype_constraints_monotone() {
    let copy = abilities(true, false, false, false);
    let copy_drop = abilities(true, true, false, false);
    assert!(datatype_pair(vec![tp(copy_drop, false)], vec![tp(copy, false)]).is_ok());
    let e = datatype_pair(vec![tp(copy, false)], vec![tp(copy_drop, false)]).unwrap_err();
    assert_eq!(e.major_status, StatusCode::TYPE_MISMATCH);
    let e = datatype_pair(vec![], vec![tp(copy, false)]).unwrap_err();
    assert_eq!(e.major_status, StatusCode::TYPE_MISMATCH);
}

#[test]
fn constraint_narrowing_rejected() {
    let copy = abilities(true, false, false, false);
    let copy_drop = abilities(true, true, false, false);
    let d = dep_with_function(vec![SignatureToken::TypeParameter(0)], Visibility::Public, vec![copy_drop]);
    let m = importer(vec![SignatureToken::TypeParameter(0)], vec![copy]);
    let e = verify_module(&m, &[d]).unwrap_err();
    assert_eq!(site(&e), (StatusCode::TYPE_MISMATCH, Some((IndexKind::FunctionHandle, 0)), None));
}

#[test]
fn constraint_widening_accepted() {
    let copy = abilities(true, false, false, false);
    let d = dep_with_function(vec![SignatureToken::TypeParameter(0)], Visibility::Public, vec![copy]);
    let m = importer(vec![SignatureToken::TypeParameter(0)], vec![AbilitySet::all()]);
    assert!(verify_module(&m, &[d]).is_ok());
}

#[test]
fn reference_swap_rejected() {
    let d = dep_with_function(
        vec![SignatureToken::MutableReference(Box::new(SignatureToken::U64))],
        Visibility::Public,
        vec![],
    );
    let m = importer(vec![SignatureToken::Reference(Box::new(SignatureToken::U64))], vec![]);
    let e = verify_module(&m, std::slice::from_ref(&d)).unwrap_err();
    assert_eq!(site(&e), (StatusCode::TYPE_MISMATCH, Some((IndexKind::FunctionHandle, 0)), None));
    let m2 = importer(vec![SignatureToken::MutableReference(Box::new(SignatureToken::U64))], vec![]);
    assert!(verify_module(&m2, &[d]).is_ok());
}

#[test]
fn signature_mismatches_rejected() {
    let cases: Vec<(Vec<SignatureToken>, Vec<SignatureToken>)> = vec![
        (vec![SignatureToken::U64], vec![SignatureToken::U128]),
        (vec![SignatureToken::U64], vec![]),
        (vec![SignatureToken::TypeParameter(0)], vec![SignatureToken::TypeParameter(1)]),
        (
            vec![SignatureToken::Vector(Box::new(SignatureToken::Bool))],
            vec![SignatureToken::Vector(Box::new(SignatureToken::U8))],
        ),
        (vec![SignatureToken::Signer], vec![SignatureToken::Address]),
    ];
    for (def, local) in cases {
        let tps = vec![AbilitySet::empty(), AbilitySet::empty()];
        let d = dep_with_function(def, Visibility::Public, tps.clone());
        let m = importer(local, tps);
        let e = verify_module(&m, &[d]).unwrap_err();
        assert_eq!(site(&e), (StatusCode::TYPE_MISMATCH, Some((IndexKind::FunctionHandle, 0)), None));
    }
}

#[test]
fn identical_signatures_accepted() {
    // f<T>(vector<u8>, &mut S<T>, u256, address, signer) in both modules.
    let mut d = module(6, 1, "A");
    let s = add_datatype(&mut d, ModuleHandleIndex(0), "S", AbilitySet::all(), vec![tp(AbilitySet::empty(), false)]);
    d.struct_defs.push(StructDefinition { struct_handle: s });
    let sig = |s: DatatypeHandleIndex| {
        vec![
            SignatureToken::Vector(Box::new(SignatureToken::U8)),
            SignatureToken::MutableReference(Box::new(SignatureToken::DatatypeInstantiation(
                s,
                vec![SignatureToken::TypeParameter(0)],
            ))),
            SignatureToken::U256,
            SignatureToken::Address,
            SignatureToken::Signer,
        ]
    };
    let f = add_function(&mut d, ModuleHandleIndex(0), "f", sig(s), vec![AbilitySet::empty()]);
    define(&mut d, f, Visibility::Public, false, vec![]);

    let mut m = module(6, 2, "M");
    let a = add_module_handle(&mut m, 1, "A");
    // an unrelated datatype first, so that the handle indices differ
    let _other = add_datatype(&mut m, ModuleHandleIndex(0), "Own", AbilitySet::empty(), vec![]);
    let ms = add_datatype(&mut m, a, "S", AbilitySet::all(), vec![tp(AbilitySet::empty(), false)]);
    add_function(&mut m, a, "f", sig(ms), vec![AbilitySet::empty()]);
    assert!(verify_module(&m, std::slice::from_ref(&d)).is_ok());

    // the same shape naming another datatype does not match
    let mut m2 = module(6, 2, "M");
    let a2 = add_module_handle(&mut m2, 1, "A");
    let t = add_datatype(&mut m2, ModuleHandleIndex(0), "S", AbilitySet::all(), vec![tp(AbilitySet::empty(), false)]);
    let _ = add_datatype(&mut m2, a2, "S", AbilitySet::all(), vec![tp(AbilitySet::empty(), false)]);
    add_function(&mut m2, a2, "f", sig(t), vec![AbilitySet::empty()]);
    let e = verify_module(&m2, &[d]).unwrap_err();
    assert_eq!(site(&e), (StatusCode::TYPE_MISMATCH, Some((IndexKind::FunctionHandle, 0)), None));
}

#[test]
fn private_function_not_importable() {
    let d = dep_with_function(vec![], Visibility::Private, vec![]);
    let m = importer(vec![], vec![]);
    let e = verify_module(&m, &[d]).unwrap_err();
    assert_eq!(site(&e), (StatusCode::LOOKUP_FAILED, Some((IndexKind::FunctionHandle, 0)), None));
}

#[test]
fn missing_function_lookup_failed() {
    let d = module(6, 1, "A");
    let m = importer(vec![], vec![]);
    let e = verify_module(&m, &[d]).unwrap_err();
    assert_eq!(site(&e), (StatusCode::LOOKUP_FAILED, Some((IndexKind::FunctionHandle, 0)), None));
}

fn friend_dep(declare_friend: bool) -> CompiledModule {
    let mut d = module(6, 1, "D");
    let f = add_function(&mut d, ModuleHandleIndex(0), "helper", vec![SignatureToken::U64], vec![]);
    define(&mut d, f, Visibility::Friend, false, vec![]);
    if declare_friend {
        add_friend(&mut d, 2, "M");
    }
    d
}

fn friend_importer() -> CompiledModule {
    let mut m = module(6, 2, "M");
    let dh = add_module_handle(&mut m, 1, "D");
    add_function(&mut m, dh, "helper", vec![SignatureToken::U64], vec![]);
    m
}

#[test]
fn friend_admitted() {
    let m = friend_importer();
    assert!(verify_module(&m, &[friend_dep(true)]).is_ok());
    let e = verify_module(&m, &[friend_dep(false)]).unwrap_err();
    assert_eq!(site(&e), (StatusCode::LOOKUP_FAILED, Some((IndexKind::FunctionHandle, 0)), None));
}

#[test]
fn friend_of_another_module_not_admitted() {
    let mut d = friend_dep(false);
    add_friend(&mut d, 3, "M");
    let e = verify_module(&friend_importer(), &[d]).unwrap_err();
    assert_eq!(site(&e), (StatusCode::LOOKUP_FAILED, Some((IndexKind::FunctionHandle, 0)), None));
}

/// Module `0x2::M` of `version` with local functions `e` (entry) and `g`,
/// where `g` calls `e` at offset 1.
fn entry_caller(version: u32, g_is_entry: bool) -> CompiledModule {
    let mut m = module(version, 2, "M");
    let e = add_function(&mut m, ModuleHandleIndex(0), "e", vec![], vec![]);
    let g = add_function(&mut m, ModuleHandleIndex(0), "g", vec![], vec![]);
    define(&mut m, e, Visibility::Public, true, vec![Bytecode::Other]);
    define(&mut m, g, Visibility::Public, g_is_entry, vec![Bytecode::Other, Bytecode::Call(e), Bytecode::Other]);
    m
}

#[test]
fn pre_v5_entry_rule() {
    let m = entry_caller(4, false);
    let e = verify_module(&m, &[]).unwrap_err();
    assert_eq!(site(&e), (StatusCode::CALLED_SCRIPT_VISIBLE_FROM_NON_SCRIPT_VISIBLE, None, Some((1, 1))));
    assert_eq!(
        e.message.as_deref(),
        Some("script-visible functions can only be called from scripts or other script-visible functions")
    );
    assert!(verify_module(&entry_caller(4, true), &[]).is_ok());
}

#[test]
fn v5_bypasses_entry_rule() {
    for version in [5, 6, 7] {
        assert!(verify_module(&entry_caller(version, false), &[]).is_ok());
    }
}

#[test]
fn pre_v5_generic_call_to_entry() {
    let mut m = module(4, 2, "M");
    let e = add_function(&mut m, ModuleHandleIndex(0), "e", vec![], vec![AbilitySet::empty()]);
    let g = add_function(&mut m, ModuleHandleIndex(0), "g", vec![], vec![]);
    let inst = add_signature(&mut m, vec![SignatureToken::U8]);
    m.function_instantiations.push(FunctionInstantiation { handle: e, type_parameters: inst });
    define(&mut m, e, Visibility::Public, true, vec![]);
    define(&mut m, g, Visibility::Public, false, vec![Bytecode::CallGeneric(FunctionInstantiationIndex(0))]);
    let err = verify_module(&m, &[]).unwrap_err();
    assert_eq!(site(&err), (StatusCode::CALLED_SCRIPT_VISIBLE_FROM_NON_SCRIPT_VISIBLE, None, Some((1, 0))));
}

#[test]
fn pre_v5_dependency_entry_is_script_visible() {
    let mut d = module(4, 1, "A");
    let f = add_function(&mut d, ModuleHandleIndex(0), "f", vec![], vec![]);
    define(&mut d, f, Visibility::Public, true, vec![]);
    let mut m = module(4, 2, "M");
    let a = add_module_handle(&mut m, 1, "A");
    let fh = add_function(&mut m, a, "f", vec![], vec![]);
    let g = add_function(&mut m, ModuleHandleIndex(0), "g", vec![], vec![]);
    define(&mut m, g, Visibility::Public, false, vec![Bytecode::Call(fh)]);
    let err = verify_module(&m, std::slice::from_ref(&d)).unwrap_err();
    assert_eq!(site(&err), (StatusCode::CALLED_SCRIPT_VISIBLE_FROM_NON_SCRIPT_VISIBLE, None, Some((0, 0))));
    // a dependency of version 5 or later does not make its entry functions script-visible
    d.version = 5;
    assert!(verify_module(&m, &[d]).is_ok());
}

#[test]
fn self_link_identity() {
    let m = entry_caller(6, false);
    let copy = entry_caller(6, false);
    assert!(verify_module(&m, &[copy]).is_ok());
    assert!(verify_module(&m, &[]).is_ok());
    // the module is never its own dependency, even with a handle to itself
    let mut m2 = module(6, 2, "M");
    add_module_handle(&mut m2, 2, "M");
    let self_copy = module(6, 2, "M");
    let e1 = verify_module(&m2, &[self_copy]).unwrap_err();
    let e2 = verify_module(&m2, &[]).unwrap_err();
    assert_eq!(site(&e1), site(&e2));
}

#[test]
fn supplying_missing_dependency_moves_on() {
    let mut m = module(6, 2, "M");
    add_module_handle(&mut m, 1, "A");
    add_module_handle(&mut m, 1, "B");
    let e = verify_module(&m, &[]).unwrap_err();
    assert_eq!(site(&e), (StatusCode::MISSING_DEPENDENCY, Some((IndexKind::ModuleHandle, 1)), None));
    let e = verify_module(&m, &[module(6, 1, "A")]).unwrap_err();
    assert_eq!(site(&e), (StatusCode::MISSING_DEPENDENCY, Some((IndexKind::ModuleHandle, 2)), None));
    assert!(verify_module(&m, &[module(6, 1, "A"), module(6, 1, "B")]).is_ok());
}

#[test]
fn later_dependency_with_same_id_wins() {
    let old = dep_with_function(vec![SignatureToken::U8], Visibility::Public, vec![]);
    let new = dep_with_function(vec![SignatureToken::U64], Visibility::Public, vec![]);
    let m = importer(vec![SignatureToken::U64], vec![]);
    assert!(verify_module(&m, &[old, new]).is_ok());
    let old = dep_with_function(vec![SignatureToken::U8], Visibility::Public, vec![]);
    let new = dep_with_function(vec![SignatureToken::U64], Visibility::Public, vec![]);
    assert!(verify_module(&m, &[new, old]).is_err());
}

#[test]
fn passes_run_in_order() {
    // a missing module is reported before a bad datatype of another module
    let mut d = module(6, 1, "A");
    let s = add_datatype(&mut d, ModuleHandleIndex(0), "S", AbilitySet::empty(), vec![]);
    d.struct_defs.push(StructDefinition { struct_handle: s });
    let mut m = module(6, 2, "M");
    let a = add_module_handle(&mut m, 1, "A");
    add_module_handle(&mut m, 1, "B");
    add_datatype(&mut m, a, "S", AbilitySet::all(), vec![]);
    let e = verify_module(&m, std::slice::from_ref(&d)).unwrap_err();
    assert_eq!(site(&e), (StatusCode::MISSING_DEPENDENCY, Some((IndexKind::ModuleHandle, 2)), None));
    // datatypes are reported before functions
    let mut m = module(6, 2, "M");
    let a = add_module_handle(&mut m, 1, "A");
    add_datatype(&mut m, a, "S", AbilitySet::all(), vec![]);
    add_function(&mut m, a, "nothing", vec![], vec![]);
    let e = verify_module(&m, &[d]).unwrap_err();
    assert_eq!(site(&e), (StatusCode::TYPE_MISMATCH, Some((IndexKind::DatatypeHandle, 0)), None));
}

#[test]
fn bounds_check() {
    let mut m = importer(vec![SignatureToken::Vector(Box::new(SignatureToken::Datatype(DatatypeHandleIndex(0))))], vec![]);
    assert!(!m.check_bounds());
    let a = ModuleHandleIndex(1);
    add_datatype(&mut m, a, "S", AbilitySet::empty(), vec![]);
    assert!(m.check_bounds());
    m.self_module_handle_idx = ModuleHandleIndex(5);
    assert!(!m.check_bounds());
    let mut m = module(6, 2, "M");
    define(&mut m, FunctionHandleIndex(0), Visibility::Public, false, vec![]);
    assert!(!m.check_bounds());
    let f = add_function(&mut m, ModuleHandleIndex(0), "f", vec![], vec![]);
    assert!(m.check_bounds());
    define(&mut m, f, Visibility::Public, false, vec![Bytecode::CallGeneric(FunctionInstantiationIndex(0))]);
    assert!(!m.check_bounds());
}
