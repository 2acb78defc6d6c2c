//! A decoded compiled module, held as plain tables addressed by small indices.
use vstd::prelude::*;

verus! {

/// The bytecode version that introduced the current visibility regime.
pub const VERSION_5: u32 = 5;

/// An index into one of a module's tables.
pub type TableIndex = u16;

/// An offset into a function's code.
pub type CodeOffset = u16;

#[derive(Clone, Copy, Debug, PartialEq, Eq, Structural)]
pub struct ModuleHandleIndex(pub u16);

#[derive(Clone, Copy, Debug, PartialEq, Eq, Structural)]
pub struct IdentifierIndex(pub u16);

#[derive(Clone, Copy, Debug, PartialEq, Eq, Structural)]
pub struct AddressIdentifierIndex(pub u16);

#[derive(Clone, Copy, Debug, PartialEq, Eq, Structural)]
pub struct DatatypeHandleIndex(pub u16);

#[derive(Clone, Copy, Debug, PartialEq, Eq, Structural)]
pub struct FunctionHandleIndex(pub u16);

#[derive(Clone, Copy, Debug, PartialEq, Eq, Structural)]
pub struct FunctionInstantiationIndex(pub u16);

#[derive(Clone, Copy, Debug, PartialEq, Eq, Structural)]
pub struct FunctionDefinitionIndex(pub u16);

#[derive(Clone, Copy, Debug, PartialEq, Eq, Structural)]
pub struct SignatureIndex(pub u16);

/// A set of abilities: `copy`, `drop`, `store` and `key`.
#[derive(Clone, Copy, Debug, PartialEq, Eq, Structural)]
pub struct AbilitySet {
    pub copy: bool,
    pub drop: bool,
    pub store: bool,
    pub key: bool,
}

impl AbilitySet {
    pub open spec fn subset_of(self, other: AbilitySet) -> bool {
        &&& self.copy ==> other.copy
        &&& self.drop ==> other.drop
        &&& self.store ==> other.store
        &&& self.key ==> other.key
    }

    /// The set without any ability.
    pub fn empty() -> (r: AbilitySet)
        ensures
            !r.copy && !r.drop && !r.store && !r.key,
    {
        AbilitySet { copy: false, drop: false, store: false, key: false }
    }

    /// The set holding every ability.
    pub fn all() -> (r: AbilitySet)
        ensures
            r.copy && r.drop && r.store && r.key,
    {
        AbilitySet { copy: true, drop: true, store: true, key: true }
    }

    /// Whether every ability of `self` is also in `other`.
    pub fn is_subset(self, other: AbilitySet) -> (r: bool)
        ensures
            r == self.subset_of(other),
    {
        (!self.copy || other.copy) && (!self.drop || other.drop) && (!self.store || other.store)
            && (!self.key || other.key)
    }
}

/// A type parameter of a datatype.
#[derive(Clone, Copy, Debug, PartialEq, Eq, Structural)]
pub struct DatatypeTyParameter {
    pub constraints: AbilitySet,
    pub is_phantom: bool,
}

#[derive(Clone, Copy, Debug, PartialEq, Eq, Structural)]
pub enum Visibility {
    Private,
    Public,
    Friend,
}

/// The type language of signatures.
#[derive(Debug)]
pub enum SignatureToken {
    Bool,
    U8,
    U16,
    U32,
    U64,
    U128,
    U256,
    Address,
    Signer,
    Vector(Box<SignatureToken>),
    Datatype(DatatypeHandleIndex),
    DatatypeInstantiation(DatatypeHandleIndex, Vec<SignatureToken>),
    Reference(Box<SignatureToken>),
    MutableReference(Box<SignatureToken>),
    TypeParameter(u16),
}

/// A list of signature tokens.
#[derive(Debug)]
pub struct Signature(pub Vec<SignatureToken>);

/// A 32-byte account address, or any other byte string naming an account.
#[derive(Clone, Debug, PartialEq, Eq, PartialOrd, Ord, Hash)]
pub struct AccountAddress(pub Vec<u8>);

/// A module or member name.
#[derive(Clone, Debug, PartialEq, Eq, PartialOrd, Ord, Hash)]
pub struct Identifier(pub Vec<u8>);

/// A module's global identity: an address and a name.
#[derive(Clone, Debug, PartialEq, Eq, PartialOrd, Ord, Hash)]
pub struct ModuleId {
    pub address: AccountAddress,
    pub name: Identifier,
}

/// The value by which module identities are compared.
pub type ModuleIdView = (Seq<u8>, Seq<u8>);

impl View for AccountAddress {
    type V = Seq<u8>;

    open spec fn view(&self) -> Seq<u8> {
        self.0@
    }
}

impl View for Identifier {
    type V = Seq<u8>;

    open spec fn view(&self) -> Seq<u8> {
        self.0@
    }
}

impl View for ModuleId {
    type V = ModuleIdView;

    open spec fn view(&self) -> ModuleIdView {
        (self.address@, self.name@)
    }
}

#[derive(Clone, Copy, Debug, PartialEq, Eq, Structural)]
pub struct ModuleHandle {
    pub address: AddressIdentifierIndex,
    pub name: IdentifierIndex,
}

#[derive(Clone, Debug)]
pub struct DatatypeHandle {
    pub module: ModuleHandleIndex,
    pub name: IdentifierIndex,
    pub abilities: AbilitySet,
    pub type_parameters: Vec<DatatypeTyParameter>,
}

#[derive(Clone, Debug)]
pub struct FunctionHandle {
    pub module: ModuleHandleIndex,
    pub name: IdentifierIndex,
    pub parameters: SignatureIndex,
    pub return_: SignatureIndex,
    pub type_parameters: Vec<AbilitySet>,
}

#[derive(Clone, Copy, Debug, PartialEq, Eq, Structural)]
pub struct StructDefinition {
    pub struct_handle: DatatypeHandleIndex,
}

#[derive(Clone, Copy, Debug, PartialEq, Eq, Structural)]
pub struct EnumDefinition {
    pub enum_handle: DatatypeHandleIndex,
}

#[derive(Clone, Debug)]
pub struct FunctionInstantiation {
    pub handle: FunctionHandleIndex,
    pub type_parameters: SignatureIndex,
}

/// The instructions that matter across module boundaries; every other
/// instruction is `Other`.
#[derive(Clone, Copy, Debug, PartialEq, Eq, Structural)]
pub enum Bytecode {
    Call(FunctionHandleIndex),
    CallGeneric(FunctionInstantiationIndex),
    Other,
}

#[derive(Clone, Debug)]
pub struct CodeUnit {
    pub code: Vec<Bytecode>,
}

#[derive(Clone, Debug)]
pub struct FunctionDefinition {
    pub function: FunctionHandleIndex,
    pub visibility: Visibility,
    pub is_entry: bool,
    pub code: Option<CodeUnit>,
}

/// A decoded module. Every index it holds is expected to be in range
/// (see `well_formed`).
#[derive(Debug)]
pub struct CompiledModule {
    pub version: u32,
    pub self_module_handle_idx: ModuleHandleIndex,
    pub module_handles: Vec<ModuleHandle>,
    pub datatype_handles: Vec<DatatypeHandle>,
    pub function_handles: Vec<FunctionHandle>,
    pub function_instantiations: Vec<FunctionInstantiation>,
    pub signatures: Vec<Signature>,
    pub identifiers: Vec<Identifier>,
    pub address_identifiers: Vec<AccountAddress>,
    pub struct_defs: Vec<StructDefinition>,
    pub enum_defs: Vec<EnumDefinition>,
    pub function_defs: Vec<FunctionDefinition>,
    pub friend_decls: Vec<ModuleHandle>,
}

/// The largest number of entries a table may hold, so that every position
/// fits in a `TableIndex`.
pub const TABLE_SIZE_MAX: usize = 65536;

impl CompiledModule {
    /// The identity of the module that handle `h` names.
    pub open spec fn module_id_of(self, h: ModuleHandle) -> ModuleIdView {
        (self.address_identifiers@[h.address.0 as int]@, self.identifiers@[h.name.0 as int]@)
    }

    pub open spec fn identifier(self, i: IdentifierIndex) -> Seq<u8> {
        self.identifiers@[i.0 as int]@
    }

    /// The identity of the module at position `i` of the module-handle table.
    pub open spec fn handle_id(self, i: ModuleHandleIndex) -> ModuleIdView {
        self.module_id_of(self.module_handles@[i.0 as int])
    }

    /// The module's own identity.
    pub open spec fn self_id(self) -> ModuleIdView {
        self.handle_id(self.self_module_handle_idx)
    }

    /// Whether `id` is among the module's declared friends.
    pub open spec fn has_friend(self, id: ModuleIdView) -> bool {
        exists|k: int|
            0 <= k < self.friend_decls.len() && #[trigger] self.module_id_of(self.friend_decls@[k])
                == id
    }

    pub open spec fn module_handle_wf(self, h: ModuleHandle) -> bool {
        &&& (h.address.0 as int) < self.address_identifiers.len()
        &&& (h.name.0 as int) < self.identifiers.len()
    }

    pub open spec fn token_wf(self, t: SignatureToken) -> bool
        decreases t,
    {
        match t {
            SignatureToken::Vector(b) => self.token_wf(*b),
            SignatureToken::Reference(b) => self.token_wf(*b),
            SignatureToken::MutableReference(b) => self.token_wf(*b),
            SignatureToken::Datatype(i) => (i.0 as int) < self.datatype_handles.len(),
            SignatureToken::DatatypeInstantiation(i, args) => {
                &&& (i.0 as int) < self.datatype_handles.len()
                &&& forall|k: int| 0 <= k < args.len() ==> self.token_wf(#[trigger] args[k])
            },
            _ => true,
        }
    }

    pub open spec fn tokens_wf(self, ts: Seq<SignatureToken>) -> bool {
        forall|k: int| 0 <= k < ts.len() ==> self.token_wf(#[trigger] ts[k])
    }

    pub open spec fn code_wf(self, code: Seq<Bytecode>) -> bool {
        &&& code.len() <= TABLE_SIZE_MAX
        &&& forall|o: int|
            0 <= o < code.len() ==> match #[trigger] code[o] {
                Bytecode::Call(h) => (h.0 as int) < self.function_handles.len(),
                Bytecode::CallGeneric(fi) => (fi.0 as int) < self.function_instantiations.len(),
                Bytecode::Other => true,
            }
    }

    /// Every index the module holds is in range, and every table fits the
    /// index width.
    pub open spec fn well_formed(self) -> bool {
        &&& self.module_handles.len() <= TABLE_SIZE_MAX
        &&& self.datatype_handles.len() <= TABLE_SIZE_MAX
        &&& self.function_handles.len() <= TABLE_SIZE_MAX
        &&& self.function_defs.len() <= TABLE_SIZE_MAX
        &&& self.struct_defs.len() <= TABLE_SIZE_MAX
        &&& self.enum_defs.len() <= TABLE_SIZE_MAX
        &&& (self.self_module_handle_idx.0 as int) < self.module_handles.len()
        &&& forall|i: int|
            0 <= i < self.module_handles.len() ==> self.module_handle_wf(
                #[trigger] self.module_handles@[i],
            )
        &&& forall|i: int|
            0 <= i < self.friend_decls.len() ==> self.module_handle_wf(
                #[trigger] self.friend_decls@[i],
            )
        &&& forall|i: int|
            0 <= i < self.datatype_handles.len() ==> {
                let h = #[trigger] self.datatype_handles@[i];
                &&& (h.module.0 as int) < self.module_handles.len()
                &&& (h.name.0 as int) < self.identifiers.len()
            }
        &&& forall|i: int|
            0 <= i < self.function_handles.len() ==> {
                let h = #[trigger] self.function_handles@[i];
                &&& (h.module.0 as int) < self.module_handles.len()
                &&& (h.name.0 as int) < self.identifiers.len()
                &&& (h.parameters.0 as int) < self.signatures.len()
                &&& (h.return_.0 as int) < self.signatures.len()
            }
        &&& forall|i: int|
            0 <= i < self.signatures.len() ==> self.tokens_wf(#[trigger] self.signatures@[i].0@)
        &&& forall|i: int|
            0 <= i < self.function_instantiations.len() ==> (
            #[trigger] self.function_instantiations@[i]).handle.0 < self.function_handles.len()
        &&& forall|i: int|
            0 <= i < self.struct_defs.len() ==> (
            #[trigger] self.struct_defs@[i]).struct_handle.0 < self.datatype_handles.len()
        &&& forall|i: int|
            0 <= i < self.enum_defs.len() ==> (#[trigger] self.enum_defs@[i]).enum_handle.0
                < self.datatype_handles.len()
        &&& forall|i: int|
            0 <= i < self.function_defs.len() ==> {
                let d = #[trigger] self.function_defs@[i];
                &&& (d.function.0 as int) < self.function_handles.len()
                &&& d.code matches Some(c) ==> self.code_wf(c.code@)
            }
    }
}

impl CompiledModule {
    fn module_handle_in_bounds(&self, h: &ModuleHandle) -> (r: bool)
        ensures
            r == self.module_handle_wf(*h),
    {
        (h.address.0 as usize) < self.address_identifiers.len() && (h.name.0 as usize) < self.identifiers.len()
    }

    fn token_in_bounds(&self, t: &SignatureToken) -> (r: bool)
        ensures
            r == self.token_wf(*t),
        decreases t,
    {
        match t {
            SignatureToken::Vector(b) => self.token_in_bounds(b),
            SignatureToken::Reference(b) => self.token_in_bounds(b),
            SignatureToken::MutableReference(b) => self.token_in_bounds(b),
            SignatureToken::Datatype(i) => (i.0 as usize) < self.datatype_handles.len(),
            SignatureToken::DatatypeInstantiation(i, args) => {
                (i.0 as usize) < self.datatype_handles.len() && self.tokens_in_bounds(args)
            },
            _ => true,
        }
    }

    fn tokens_in_bounds(&self, ts: &Vec<SignatureToken>) -> (r: bool)
        ensures
            r == self.tokens_wf(ts@),
        decreases ts,
    {
        let mut k: usize = 0;
        while k < ts.len()
            invariant
                k <= ts.len(),
                forall|j: int| 0 <= j < k ==> self.token_wf(#[trigger] ts@[j]),
            decreases ts.len() - k,
        {
            if !self.token_in_bounds(&ts[k]) {
                return false;
            }
            k = k + 1;
        }
        true
    }

    fn code_in_bounds(&self, code: &Vec<Bytecode>) -> (r: bool)
        ensures
            r == self.code_wf(code@),
    {
        if code.len() > TABLE_SIZE_MAX {
            return false;
        }
        let mut o: usize = 0;
        while o < code.len()
            invariant
                o <= code.len(),
                code.len() <= TABLE_SIZE_MAX,
                forall|j: int|
                    0 <= j < o ==> match #[trigger] code@[j] {
                        Bytecode::Call(h) => (h.0 as int) < self.function_handles.len(),
                        Bytecode::CallGeneric(fi) => (fi.0 as int) < self.function_instantiations.len(),
                        Bytecode::Other => true,
                    },
            decreases code.len() - o,
        {
            let ok = match code[o] {
                Bytecode::Call(h) => (h.0 as usize) < self.function_handles.len(),
                Bytecode::CallGeneric(fi) => (fi.0 as usize) < self.function_instantiations.len(),
                Bytecode::Other => true,
            };
            if !ok {
                return false;
            }
            o = o + 1;
        }
        true
    }

    /// Checks that every index the module holds is in range and every table
    /// fits the index width: what link checking assumes of its inputs.
    pub fn check_bounds(&self) -> (r: bool)
        ensures
            r == self.well_formed(),
    {
        if self.module_handles.len() > TABLE_SIZE_MAX || self.datatype_handles.len() > TABLE_SIZE_MAX
            || self.function_handles.len() > TABLE_SIZE_MAX || self.function_defs.len() > TABLE_SIZE_MAX
            || self.struct_defs.len() > TABLE_SIZE_MAX || self.enum_defs.len() > TABLE_SIZE_MAX
            || (self.self_module_handle_idx.0 as usize) >= self.module_handles.len() {
            return false;
        }
        let mut i: usize = 0;
        while i < self.module_handles.len()
            invariant
                forall|j: int| 0 <= j < i ==> self.module_handle_wf(#[trigger] self.module_handles@[j]),
            decreases self.module_handles.len() - i,
        {
            if !self.module_handle_in_bounds(&self.module_handles[i]) {
                return false;
            }
            i = i + 1;
        }
        let mut i: usize = 0;
        while i < self.friend_decls.len()
            invariant
                forall|j: int| 0 <= j < i ==> self.module_handle_wf(#[trigger] self.friend_decls@[j]),
            decreases self.friend_decls.len() - i,
        {
            if !self.module_handle_in_bounds(&self.friend_decls[i]) {
                return false;
            }
            i = i + 1;
        }
        let mut i: usize = 0;
        while i < self.datatype_handles.len()
            invariant
                forall|j: int|
                    0 <= j < i ==> {
                        let h = #[trigger] self.datatype_handles@[j];
                        &&& (h.module.0 as int) < self.module_handles.len()
                        &&& (h.name.0 as int) < self.identifiers.len()
                    },
            decreases self.datatype_handles.len() - i,
        {
            let h = &self.datatype_handles[i];
            if !((h.module.0 as usize) < self.module_handles.len() && (h.name.0 as usize) < self.identifiers.len()) {
                return false;
            }
            i = i + 1;
        }
        let mut i: usize = 0;
        while i < self.function_handles.len()
            invariant
                forall|j: int|
                    0 <= j < i ==> {
                        let h = #[trigger] self.function_handles@[j];
                        &&& (h.module.0 as int) < self.module_handles.len()
                        &&& (h.name.0 as int) < self.identifiers.len()
                        &&& (h.parameters.0 as int) < self.signatures.len()
                        &&& (h.return_.0 as int) < self.signatures.len()
                    },
            decreases self.function_handles.len() - i,
        {
            let h = &self.function_handles[i];
            if !((h.module.0 as usize) < self.module_handles.len() && (h.name.0 as usize) < self.identifiers.len()
                && (h.parameters.0 as usize) < self.signatures.len() && (h.return_.0 as usize)
                < self.signatures.len()) {
                return false;
            }
            i = i + 1;
        }
        let mut i: usize = 0;
        while i < self.signatures.len()
            invariant
                forall|j: int| 0 <= j < i ==> self.tokens_wf(#[trigger] self.signatures@[j].0@),
            decreases self.signatures.len() - i,
        {
            if !self.tokens_in_bounds(&self.signatures[i].0) {
                return false;
            }
            i = i + 1;
        }
        let mut i: usize = 0;
        while i < self.function_instantiations.len()
            invariant
                forall|j: int|
                    0 <= j < i ==> (#[trigger] self.function_instantiations@[j]).handle.0 < self.function_handles.len(),
            decreases self.function_instantiations.len() - i,
        {
            if (self.function_instantiations[i].handle.0 as usize) >= self.function_handles.len() {
                return false;
            }
            i = i + 1;
        }
        let mut i: usize = 0;
        while i < self.struct_defs.len()
            invariant
                forall|j: int|
                    0 <= j < i ==> (#[trigger] self.struct_defs@[j]).struct_handle.0 < self.datatype_handles.len(),
            decreases self.struct_defs.len() - i,
        {
            if (self.struct_defs[i].struct_handle.0 as usize) >= self.datatype_handles.len() {
                return false;
            }
            i = i + 1;
        }
        let mut i: usize = 0;
        while i < self.enum_defs.len()
            invariant
                forall|j: int| 0 <= j < i ==> (#[trigger] self.enum_defs@[j]).enum_handle.0 < self.datatype_handles.len(),
            decreases self.enum_defs.len() - i,
        {
            if (self.enum_defs[i].enum_handle.0 as usize) >= self.datatype_handles.len() {
                return false;
            }
            i = i + 1;
        }
        let mut i: usize = 0;
        while i < self.function_defs.len()
            invariant
                forall|j: int|
                    0 <= j < i ==> {
                        let d = #[trigger] self.function_defs@[j];
                        &&& (d.function.0 as int) < self.function_handles.len()
                        &&& d.code matches Some(c) ==> self.code_wf(c.code@)
                    },
            decreases self.function_defs.len() - i,
        {
            let d = &self.function_defs[i];
            if (d.function.0 as usize) >= self.function_handles.len() {
                return false;
            }
            match &d.code {
                Some(c) => {
                    if !self.code_in_bounds(&c.code) {
                        return false;
                    }
                },
                None => {},
            }
            i = i + 1;
        }
        true
    }
}

} // verus!
