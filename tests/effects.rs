use move_bytecode_verifier::effects::{AccountChangeSet, ChangeSet, ChangeSetError, Op};
use move_bytecode_verifier::file_format::{AccountAddress, Identifier, ModuleId};

fn ident(s: &str) -> Identifier {
    Identifier(s.as_bytes().to_vec())
}

fn addr(b: u8) -> AccountAddress {
    AccountAddress(vec![b; 4])
}

fn module_id(a: u8, name: &str) -> ModuleId {
    ModuleId { address: addr(a), name: ident(name) }
}

#[test]
fn op_as_ref_map_ok() {
    let n: Op<u32> = Op::New(3);
    assert_eq!(n.as_ref(), Op::New(&3));
    assert_eq!(Op::Modify(4).map(|x: u32| x * 2), Op::Modify(8));
    assert_eq!(Op::New(4).map(|x: u32| x + 1), Op::New(5));
    assert_eq!(Op::<u32>::Delete.map(|x: u32| x + 1), Op::Delete);
    assert_eq!(Op::New(1).ok(), Some(1));
    assert_eq!(Op::Modify(2).ok(), Some(2));
    assert_eq!(Op::<u8>::Delete.ok(), None);
    assert_eq!(Op::<u8>::Delete.as_ref(), Op::Delete);
}

#[test]
fn account_change_set_add_module_op() {
    let mut acs = AccountChangeSet::new();
    assert!(acs.is_empty());
    assert_eq!(acs.add_module_op(ident("A"), Op::New(vec![1])), Ok(()));
    assert_eq!(acs.add_module_op(ident("B"), Op::Delete), Ok(()));
    assert_eq!(acs.add_module_op(ident("A"), Op::Delete), Err(ChangeSetError::ModuleExists));
    assert!(!acs.is_empty());
    assert_eq!(acs.modules().clone(), vec![(ident("A"), Op::New(vec![1])), (ident("B"), Op::Delete)]);
    assert_eq!(acs.clone().into_inner(), acs.into_modules());
}

fn single(name: &str, op: Op<Vec<u8>>) -> AccountChangeSet {
    AccountChangeSet::from_modules(vec![(ident(name), op)])
}

fn squash_one(a: Op<Vec<u8>>, b: Op<Vec<u8>>) -> Result<Vec<(Identifier, Op<Vec<u8>>)>, ChangeSetError> {
    let mut s = single("M", a);
    s.squash(single("M", b))?;
    Ok(s.into_inner())
}

#[test]
fn squash_table() {
    let d1 = vec![1u8];
    let d2 = vec![2u8];
    assert_eq!(squash_one(Op::Modify(d1.clone()), Op::Modify(d2.clone())), Ok(vec![(ident("M"), Op::Modify(d2.clone()))]));
    assert_eq!(squash_one(Op::New(d1.clone()), Op::Modify(d2.clone())), Ok(vec![(ident("M"), Op::New(d2.clone()))]));
    assert_eq!(squash_one(Op::Modify(d1.clone()), Op::Delete), Ok(vec![(ident("M"), Op::Delete)]));
    assert_eq!(squash_one(Op::Delete, Op::New(d2.clone())), Ok(vec![(ident("M"), Op::Modify(d2.clone()))]));
    assert_eq!(squash_one(Op::New(d1.clone()), Op::Delete), Ok(vec![]));
    for (a, b) in [
        (Op::Modify(d1.clone()), Op::New(d2.clone())),
        (Op::New(d1.clone()), Op::New(d2.clone())),
        (Op::Delete, Op::Delete),
        (Op::Delete, Op::Modify(d2.clone())),
    ] {
        assert_eq!(squash_one(a, b), Err(ChangeSetError::CannotSquash));
    }
}

#[test]
fn squash_disjoint_modules_appends() {
    let mut s = single("A", Op::New(vec![1]));
    s.squash(single("B", Op::Delete)).unwrap();
    assert_eq!(s.into_inner(), vec![(ident("A"), Op::New(vec![1])), (ident("B"), Op::Delete)]);
}

#[test]
fn change_set_add_and_list() {
    let mut cs = ChangeSet::new();
    assert_eq!(cs.add_module_op(module_id(1, "A"), Op::New(vec![7])), Ok(()));
    assert_eq!(cs.add_module_op(module_id(1, "B"), Op::Delete), Ok(()));
    assert_eq!(cs.add_module_op(module_id(2, "A"), Op::Modify(vec![8])), Ok(()));
    assert_eq!(cs.add_module_op(module_id(1, "A"), Op::Delete), Err(ChangeSetError::ModuleExists));
    assert_eq!(cs.accounts().len(), 2);
    assert_eq!(
        cs.modules(),
        vec![
            (addr(1), ident("A"), Op::New(vec![7])),
            (addr(1), ident("B"), Op::Delete),
            (addr(2), ident("A"), Op::Modify(vec![8])),
        ]
    );
    assert_eq!(
        cs.clone().into_modules(),
        vec![
            (module_id(1, "A"), Op::New(vec![7])),
            (module_id(1, "B"), Op::Delete),
            (module_id(2, "A"), Op::Modify(vec![8])),
        ]
    );
    assert_eq!(cs.into_inner().len(), 2);
}

#[test]
fn change_set_add_account() {
    let mut cs = ChangeSet::default();
    assert_eq!(cs.add_account_changeset(addr(1), single("A", Op::Delete)), Ok(()));
    assert_eq!(cs.add_account_changeset(addr(1), single("B", Op::Delete)), Err(ChangeSetError::AccountExists));
    assert_eq!(cs.accounts().len(), 1);
}

#[test]
fn change_set_squash() {
    let mut a = ChangeSet::new();
    a.add_module_op(module_id(1, "A"), Op::New(vec![1])).unwrap();
    a.add_module_op(module_id(1, "B"), Op::Modify(vec![1])).unwrap();
    let mut b = ChangeSet::new();
    b.add_module_op(module_id(1, "A"), Op::Delete).unwrap();
    b.add_module_op(module_id(1, "B"), Op::Modify(vec![2])).unwrap();
    b.add_module_op(module_id(3, "C"), Op::New(vec![3])).unwrap();
    assert_eq!(a.squash(b), Ok(()));
    assert_eq!(
        a.into_modules(),
        vec![(module_id(1, "B"), Op::Modify(vec![2])), (module_id(3, "C"), Op::New(vec![3]))]
    );

    let mut c = ChangeSet::new();
    c.add_module_op(module_id(1, "A"), Op::New(vec![1])).unwrap();
    let mut d = ChangeSet::new();
    d.add_module_op(module_id(1, "A"), Op::New(vec![2])).unwrap();
    assert_eq!(c.squash(d), Err(ChangeSetError::CannotSquash));
}

#[test]
fn entries_kept_in_key_order() {
    let mut acs = AccountChangeSet::new();
    acs.add_module_op(ident("C"), Op::Delete).unwrap();
    acs.add_module_op(ident("A"), Op::Delete).unwrap();
    acs.add_module_op(ident("B"), Op::New(vec![2])).unwrap();
    assert_eq!(
        acs.into_inner(),
        vec![(ident("A"), Op::Delete), (ident("B"), Op::New(vec![2])), (ident("C"), Op::Delete)]
    );
    let mut cs = ChangeSet::new();
    cs.add_module_op(module_id(3, "Z"), Op::Delete).unwrap();
    cs.add_module_op(module_id(1, "Y"), Op::Delete).unwrap();
    cs.add_module_op(module_id(3, "A"), Op::Delete).unwrap();
    assert_eq!(
        cs.modules(),
        vec![
            (addr(1), ident("Y"), Op::Delete),
            (addr(3), ident("A"), Op::Delete),
            (addr(3), ident("Z"), Op::Delete),
        ]
    );
    let mut other = ChangeSet::new();
    other.add_module_op(module_id(2, "M"), Op::New(vec![1])).unwrap();
    cs.squash(other).unwrap();
    let order: Vec<AccountAddress> = cs.into_inner().into_iter().map(|(a, _)| a).collect();
    assert_eq!(order, vec![addr(1), addr(2), addr(3)]);
}
