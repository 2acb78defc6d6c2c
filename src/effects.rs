//! Change sets: the module operations that a transaction applies to
//! accounts, and the squashing of two change sets into one.
use vstd::prelude::*;

use crate::file_format::{AccountAddress, Identifier, ModuleId, ModuleIdView};
use crate::keyed::{
    bytes_eq, bytes_lt, clone_bytes, insert_position, key_lt, keys_distinct, keys_sorted, lemma_insert_position,
    lemma_insert_position_absent, lemma_key_lt_total, lemma_lookup_absent, lemma_lookup_insert,
    lemma_lookup_present, lemma_lookup_push, lemma_lookup_remove, lemma_lookup_update, lemma_sorted_distinct,
    lemma_sorted_remove, lemma_sorted_update, lookup,
};

verus! {

/// A storage operation.
#[derive(Debug, Clone, Eq, PartialEq, Ord, PartialOrd)]
pub enum Op<T> {
    /// Inserts some new data into an empty slot.
    New(T),
    /// Modifies some data that currently exists.
    Modify(T),
    /// Deletes some data that currently exists.
    Delete,
}

impl<T: View> View for Op<T> {
    type V = Op<T::V>;

    open spec fn view(&self) -> Op<T::V> {
        match self {
            Op::New(d) => Op::New(d@),
            Op::Modify(d) => Op::Modify(d@),
            Op::Delete => Op::Delete,
        }
    }
}

impl<T> Op<T> {
    /// The same operation, borrowing its data.
    pub fn as_ref(&self) -> (r: Op<&T>)
        ensures
            match *self {
                Op::New(d) => r matches Op::New(x) && *x == d,
                Op::Modify(d) => r matches Op::Modify(x) && *x == d,
                Op::Delete => r is Delete,
            },
    {
        match self {
            Op::New(data) => Op::New(data),
            Op::Modify(data) => Op::Modify(data),
            Op::Delete => Op::Delete,
        }
    }

    /// The same operation with `f` applied to its data.
    pub fn map<F, U>(self, f: F) -> (r: Op<U>)
        where
            F: FnOnce(T) -> U,
        requires
            match self {
                Op::New(d) => f.requires((d,)),
                Op::Modify(d) => f.requires((d,)),
                Op::Delete => true,
            },
        ensures
            match self {
                Op::New(d) => r matches Op::New(u) && f.ensures((d,), u),
                Op::Modify(d) => r matches Op::Modify(u) && f.ensures((d,), u),
                Op::Delete => r is Delete,
            },
    {
        match self {
            Op::New(data) => Op::New(f(data)),
            Op::Modify(data) => Op::Modify(f(data)),
            Op::Delete => Op::Delete,
        }
    }

    /// The data of a `New` or `Modify`; nothing for a `Delete`.
    pub fn ok(self) -> (r: Option<T>)
        ensures
            r == match self {
                Op::New(d) => Some(d),
                Op::Modify(d) => Some(d),
                Op::Delete => None,
            },
    {
        match self {
            Op::New(data) | Op::Modify(data) => Some(data),
            Op::Delete => None,
        }
    }
}

/// Why a change could not be recorded.
#[derive(Clone, Copy, Debug, PartialEq, Eq, Structural)]
pub enum ChangeSetError {
    /// Two operations on the same item cannot follow one another.
    CannotSquash,
    /// The module already has an operation in the change set.
    ModuleExists,
    /// The account already has a change set.
    AccountExists,
}

/// The operation that results from operation `a` followed by `b` on the same
/// item: `None` when the pair is contradictory, `Some(None)` when the item
/// is left untouched (created, then deleted).
pub open spec fn squash_op(a: Op<Seq<u8>>, b: Op<Seq<u8>>) -> Option<Option<Op<Seq<u8>>>> {
    match (a, b) {
        (Op::Modify(_), Op::New(_)) => None,
        (Op::New(_), Op::New(_)) => None,
        (Op::Delete, Op::Delete) => None,
        (Op::Delete, Op::Modify(_)) => None,
        (Op::Modify(_), Op::Modify(d)) => Some(Some(Op::Modify(d))),
        (Op::New(_), Op::Modify(d)) => Some(Some(Op::New(d))),
        (Op::Modify(_), Op::Delete) => Some(Some(Op::Delete)),
        (Op::Delete, Op::New(d)) => Some(Some(Op::Modify(d))),
        (Op::New(_), Op::Delete) => Some(None),
    }
}

/// The operation on an item after the (optional) operations `a` then `b`.
pub open spec fn squash_entry(a: Option<Op<Seq<u8>>>, b: Option<Op<Seq<u8>>>) -> Option<Option<Op<Seq<u8>>>> {
    match (a, b) {
        (x, None) => Some(x),
        (None, Some(y)) => Some(Some(y)),
        (Some(x), Some(y)) => squash_op(x, y),
    }
}

/// No item has contradictory operations in `s` then `o`.
pub open spec fn squashable(s: Seq<(Seq<u8>, Op<Seq<u8>>)>, o: Seq<(Seq<u8>, Op<Seq<u8>>)>) -> bool {
    forall|k: Seq<u8>| #[trigger] squash_entry(lookup(s, k), lookup(o, k)) is Some
}

/// `cur` holds `s` with the entries of `o` before position `j` applied.
pub open spec fn merged_prefix(
    s: Seq<(Seq<u8>, Op<Seq<u8>>)>,
    o: Seq<(Seq<u8>, Op<Seq<u8>>)>,
    j: int,
    cur: Seq<(Seq<u8>, Op<Seq<u8>>)>,
) -> bool {
    forall|k: Seq<u8>|
        #![trigger lookup(cur, k)]
        #![trigger lookup(o.take(j), k)]
        if lookup(o.take(j), k) is Some {
            squash_entry(lookup(s, k), lookup(o, k)) == Some(lookup(cur, k))
        } else {
            lookup(cur, k) == lookup(s, k)
        }
}

/// Applying `o` after `s` first fails at position `j` of `o`, with the
/// entries before it applied in `cur`.
pub open spec fn squash_stopped_at(
    s: Seq<(Seq<u8>, Op<Seq<u8>>)>,
    o: Seq<(Seq<u8>, Op<Seq<u8>>)>,
    j: int,
    cur: Seq<(Seq<u8>, Op<Seq<u8>>)>,
) -> bool {
    &&& 0 <= j < o.len()
    &&& squash_entry(lookup(s, o[j].0), Some(o[j].1)) is None
    &&& merged_prefix(s, o, j, cur)
}

/// The entries as keys and plain operations.
pub open spec fn entries_view(s: Seq<(Identifier, Op<Vec<u8>>)>) -> Seq<(Seq<u8>, Op<Seq<u8>>)> {
    s.map_values(|e: (Identifier, Op<Vec<u8>>)| (e.0@, e.1@))
}

fn clone_op(o: &Op<Vec<u8>>) -> (r: Op<Vec<u8>>)
    ensures
        r@ == o@,
{
    match o {
        Op::New(d) => Op::New(clone_bytes(d)),
        Op::Modify(d) => Op::Modify(clone_bytes(d)),
        Op::Delete => Op::Delete,
    }
}

fn clone_entries(s: &Vec<(Identifier, Op<Vec<u8>>)>) -> (r: Vec<(Identifier, Op<Vec<u8>>)>)
    ensures
        entries_view(r@) == entries_view(s@),
{
    let mut r: Vec<(Identifier, Op<Vec<u8>>)> = Vec::new();
    let mut i: usize = 0;
    while i < s.len()
        invariant
            i <= s.len(),
            entries_view(r@) == entries_view(s@.take(i as int)),
        decreases s.len() - i,
    {
        let e = (Identifier(clone_bytes(&s[i].0.0)), clone_op(&s[i].1));
        let ghost before = r@;
        assert((e.0@, e.1@) == entries_view(s@)[i as int]);
        r.push(e);
        assert(r@ == before.push(e));
        assert(entries_view(before.push(e)) =~= entries_view(before).push((e.0@, e.1@)));
        assert(entries_view(s@.take(i + 1)) =~= entries_view(s@.take(i as int)).push(entries_view(s@)[i as int]));
        i = i + 1;
    }
    assert(s@.take(s.len() as int) =~= s@);
    r
}

/// The position of the entry with key `k`, or where it belongs when there
/// is none.
fn find_key(s: &Vec<(Identifier, Op<Vec<u8>>)>, k: &Vec<u8>) -> (r: Result<usize, usize>)
    requires
        keys_sorted(entries_view(s@)),
    ensures
        r matches Ok(i) ==> i < s.len() && entries_view(s@)[i as int].0 == k@,
        r matches Err(p) ==> insert_position(entries_view(s@), k@, p as int),
{
    let ghost v = entries_view(s@);
    let mut i: usize = 0;
    while i < s.len()
        invariant
            i <= s.len(),
            v == entries_view(s@),
            keys_sorted(v),
            forall|j: int| 0 <= j < i ==> key_lt(#[trigger] v[j].0, k@),
        decreases s.len() - i,
    {
        if bytes_eq(&s[i].0.0, k) {
            return Ok(i);
        }
        if bytes_lt(k, &s[i].0.0) {
            proof {
                lemma_insert_position(v, k@, i as int);
            }
            return Err(i);
        }
        proof {
            lemma_key_lt_total(v[i as int].0, k@);
        }
        i = i + 1;
    }
    proof {
        lemma_insert_position(v, k@, i as int);
    }
    Err(i)
}

/// Applies the operations of `other` after those of `map`. On success,
/// every key holds the squashed operation; when a pair of operations
/// contradicts, the result is an error and `map` may hold part of the work.
fn squash(map: &mut Vec<(Identifier, Op<Vec<u8>>)>, other: &Vec<(Identifier, Op<Vec<u8>>)>) -> (r: Result<(), ChangeSetError>)
    requires
        keys_sorted(entries_view(old(map)@)),
        keys_distinct(entries_view(old(map)@)),
        keys_distinct(entries_view(other@)),
    ensures
        r is Ok <==> squashable(entries_view(old(map)@), entries_view(other@)),
        r matches Err(e) ==> e == ChangeSetError::CannotSquash,
        r is Err ==> exists|j: int|
            squash_stopped_at(entries_view(old(map)@), entries_view(other@), j, entries_view(final(map)@)),
        keys_distinct(entries_view(final(map)@)),
        keys_sorted(entries_view(final(map)@)),
        r is Ok ==> forall|k: Seq<u8>|
            #[trigger] lookup(entries_view(final(map)@), k) == squash_entry(
                lookup(entries_view(old(map)@), k),
                lookup(entries_view(other@), k),
            )->Some_0,
{
    let ghost s0 = entries_view(map@);
    let ghost o = entries_view(other@);
    let mut j: usize = 0;
    while j < other.len()
        invariant
            s0 == entries_view(old(map)@),
            o == entries_view(other@),
            keys_distinct(o),
            j <= other.len(),
            keys_distinct(entries_view(map@)),
            keys_sorted(entries_view(map@)),
            merged_prefix(s0, o, j as int, entries_view(map@)),
        decreases other.len() - j,
    {
        let ghost cur = entries_view(map@);
        let key = &other[j].0;
        let op = &other[j].1;
        let ghost kj = key@;
        assert(o[j as int] == (kj, op@));
        proof {
            lemma_lookup_present(o, j as int);
            assert forall|i: int| 0 <= i < o.take(j as int).len() implies (#[trigger] o.take(j as int)[i]).0 != kj by {
                assert(o.take(j as int)[i] == o[i]);
            }
            lemma_lookup_absent(o.take(j as int), kj);
            assert(o.take(j + 1) =~= o.take(j as int).push(o[j as int]));
            lemma_lookup_push(o.take(j as int), o[j as int]);
        }
        assert(lookup(cur, kj) == lookup(s0, kj));
        match find_key(map, &key.0) {
            Ok(idx) => {
                proof {
                    lemma_lookup_present(cur, idx as int);
                }
                let new_op: Option<Op<Vec<u8>>> = match (&map[idx].1, op) {
                    (Op::Modify(_), Op::New(_)) | (Op::New(_), Op::New(_)) | (Op::Delete, Op::Delete) | (
                        Op::Delete,
                        Op::Modify(_),
                    ) => {
                        assert(squash_entry(lookup(s0, kj), lookup(o, kj)) is None);
                        assert(squash_stopped_at(s0, o, j as int, entries_view(map@)));
                        return Err(ChangeSetError::CannotSquash);
                    },
                    (Op::Modify(_), Op::Modify(data)) => Some(Op::Modify(clone_bytes(data))),
                    (Op::New(_), Op::Modify(data)) => Some(Op::New(clone_bytes(data))),
                    (Op::Modify(_), Op::Delete) => Some(Op::Delete),
                    (Op::Delete, Op::New(data)) => Some(Op::Modify(clone_bytes(data))),
                    (Op::New(_), Op::Delete) => None,
                };
                match new_op {
                    Some(n) => {
                        let ghost e = (kj, n@);
                        map.set(idx, (Identifier(clone_bytes(&key.0)), n));
                        proof {
                            assert(entries_view(map@) =~= cur.update(idx as int, e));
                            lemma_lookup_update(cur, idx as int, e);
                            lemma_sorted_update(cur, idx as int, e);
                            lemma_sorted_distinct(cur.update(idx as int, e));
                        }
                    },
                    None => {
                        map.remove(idx);
                        proof {
                            assert(entries_view(map@) =~= cur.remove(idx as int));
                            lemma_lookup_remove(cur, idx as int);
                            lemma_sorted_remove(cur, idx as int);
                        }
                    },
                }
            },
            Err(p) => {
                proof {
                    lemma_insert_position_absent(cur, kj, p as int);
                    lemma_lookup_absent(cur, kj);
                }
                let ghost e = (kj, op@);
                map.insert(p, (Identifier(clone_bytes(&key.0)), clone_op(op)));
                proof {
                    assert(entries_view(map@) =~= cur.insert(p as int, e));
                    lemma_lookup_insert(cur, p as int, e);
                    lemma_sorted_distinct(cur.insert(p as int, e));
                }
            },
        }
        j = j + 1;
    }
    proof {
        assert(o.take(other.len() as int) =~= o);
        assert forall|k: Seq<u8>| #[trigger] squash_entry(lookup(s0, k), lookup(o, k)) is Some by {
            assert(lookup(o.take(other.len() as int), k) == lookup(o, k));
            if lookup(o.take(other.len() as int), k) is Some {
            } else {
                assert(lookup(entries_view(map@), k) == lookup(s0, k));
            }
        }
        assert forall|k: Seq<u8>|
            #[trigger] lookup(entries_view(map@), k) == squash_entry(lookup(s0, k), lookup(o, k))->Some_0 by {
            assert(lookup(o.take(other.len() as int), k) == lookup(o, k));
        }
    }
    Ok(())
}

/// The module operations on one account, at most one per module name.
#[derive(Debug, Clone, Eq, PartialEq, Ord, PartialOrd)]
pub struct AccountChangeSet {
    modules: Vec<(Identifier, Op<Vec<u8>>)>,
}

impl View for AccountChangeSet {
    type V = Seq<(Seq<u8>, Op<Seq<u8>>)>;

    closed spec fn view(&self) -> Seq<(Seq<u8>, Op<Seq<u8>>)> {
        entries_view(self.modules@)
    }
}

impl AccountChangeSet {
    /// Module names are distinct and in increasing order.
    pub open spec fn wf(&self) -> bool {
        &&& keys_sorted(self@)
        &&& keys_distinct(self@)
    }

    /// The operation on module `name`, if any.
    pub open spec fn module_op(&self, name: Seq<u8>) -> Option<Op<Seq<u8>>> {
        lookup(self@, name)
    }

    fn duplicate(&self) -> (r: Self)
        ensures
            r@ == self@,
    {
        AccountChangeSet { modules: clone_entries(&self.modules) }
    }

    /// The change set holding `modules`, whose names increase.
    pub fn from_modules(modules: Vec<(Identifier, Op<Vec<u8>>)>) -> (r: Self)
        requires
            keys_sorted(entries_view(modules@)),
        ensures
            r@ == entries_view(modules@),
            r.wf(),
    {
        proof {
            lemma_sorted_distinct(entries_view(modules@));
        }
        AccountChangeSet { modules }
    }

    /// The empty change set.
    pub fn new() -> (r: Self)
        ensures
            r@ == Seq::<(Seq<u8>, Op<Seq<u8>>)>::empty(),
            r.wf(),
    {
        let r = AccountChangeSet { modules: Vec::new() };
        assert(r@ =~= Seq::<(Seq<u8>, Op<Seq<u8>>)>::empty());
        r
    }

    /// Records `op` on module `name`; fails when the module already has an
    /// operation.
    pub fn add_module_op(&mut self, name: Identifier, op: Op<Vec<u8>>) -> (r: Result<(), ChangeSetError>)
        requires
            old(self).wf(),
        ensures
            final(self).wf(),
            old(self).module_op(name@) is Some ==> r == Err::<(), ChangeSetError>(ChangeSetError::ModuleExists)
                && *final(self) == *old(self),
            old(self).module_op(name@) is None ==> r is Ok && forall|k: Seq<u8>|
                #[trigger] final(self).module_op(k) == if k == name@ { Some(op@) } else { old(self).module_op(k) },
    {
        let ghost s = self@;
        match find_key(&self.modules, &name.0) {
            Ok(i) => {
                proof {
                    lemma_lookup_present(s, i as int);
                }
                Err(ChangeSetError::ModuleExists)
            },
            Err(p) => {
                proof {
                    lemma_insert_position_absent(s, name@, p as int);
                    lemma_lookup_absent(s, name@);
                }
                let ghost e = (name@, op@);
                self.modules.insert(p, (name, op));
                proof {
                    assert(self@ =~= s.insert(p as int, e));
                    lemma_lookup_insert(s, p as int, e);
                    lemma_sorted_distinct(s.insert(p as int, e));
                }
                Ok(())
            },
        }
    }

    pub fn into_inner(self) -> (r: Vec<(Identifier, Op<Vec<u8>>)>)
        ensures
            entries_view(r@) == self@,
    {
        self.modules
    }

    pub fn into_modules(self) -> (r: Vec<(Identifier, Op<Vec<u8>>)>)
        ensures
            entries_view(r@) == self@,
    {
        self.modules
    }

    pub fn modules(&self) -> (r: &Vec<(Identifier, Op<Vec<u8>>)>)
        ensures
            entries_view(r@) == self@,
    {
        &self.modules
    }

    pub fn is_empty(&self) -> (r: bool)
        ensures
            r == (self@.len() == 0),
    {
        self.modules.len() == 0
    }

    /// Applies the operations of `other` after those of `self`, module by
    /// module. Fails when some module has contradictory operations; `self`
    /// may then hold part of the work.
    pub fn squash(&mut self, other: Self) -> (r: Result<(), ChangeSetError>)
        requires
            old(self).wf(),
            other.wf(),
        ensures
            final(self).wf(),
            r is Ok <==> squashable(old(self)@, other@),
            r matches Err(e) ==> e == ChangeSetError::CannotSquash,
            r is Err ==> exists|j: int| squash_stopped_at(old(self)@, other@, j, final(self)@),
            r is Ok ==> forall|k: Seq<u8>|
                #[trigger] final(self).module_op(k) == squash_entry(old(self).module_op(k), other.module_op(k))->Some_0,
    {
        squash(&mut self.modules, &other.modules)
    }
}

/// Every account present in both `s` and `o` has change sets that squash.
pub open spec fn accounts_squashable(s: Seq<(Seq<u8>, AccountChangeSet)>, o: Seq<(Seq<u8>, AccountChangeSet)>) -> bool {
    forall|a: Seq<u8>|
        #![trigger lookup(s, a), lookup(o, a)]
        lookup(s, a) is Some && lookup(o, a) is Some ==> squashable(lookup(s, a)->Some_0@, lookup(o, a)->Some_0@)
}

/// The module operations of one account, each with its module's identity.
pub open spec fn account_modules(e: (Seq<u8>, AccountChangeSet)) -> Seq<(ModuleIdView, Op<Seq<u8>>)> {
    e.1@.map_values(|m: (Seq<u8>, Op<Seq<u8>>)| ((e.0, m.0), m.1))
}

/// All module operations of `accts`, account after account.
pub open spec fn flatten(accts: Seq<(Seq<u8>, AccountChangeSet)>) -> Seq<(ModuleIdView, Op<Seq<u8>>)>
    decreases accts.len(),
{
    if accts.len() == 0 {
        Seq::empty()
    } else {
        flatten(accts.drop_last()) + account_modules(accts.last())
    }
}

/// Module identities ordered by address, then by name.
pub open spec fn module_id_lt(a: ModuleIdView, b: ModuleIdView) -> bool {
    key_lt(a.0, b.0) || (a.0 == b.0 && key_lt(a.1, b.1))
}

/// Identities strictly increase along `s`.
pub open spec fn ids_sorted(s: Seq<(ModuleIdView, Op<Seq<u8>>)>) -> bool {
    forall|x: int, y: int| 0 <= x < y < s.len() ==> module_id_lt(#[trigger] s[x].0, #[trigger] s[y].0)
}

/// Every address in the flattened operations is one of the accounts', so it
/// is below any bound of theirs.
proof fn lemma_flatten_bounded(accts: Seq<(Seq<u8>, AccountChangeSet)>, k: Seq<u8>)
    requires
        forall|i: int| 0 <= i < accts.len() ==> key_lt(#[trigger] accts[i].0, k),
    ensures
        forall|x: int| 0 <= x < flatten(accts).len() ==> key_lt(#[trigger] flatten(accts)[x].0.0, k),
    decreases accts.len(),
{
    if accts.len() > 0 {
        let pre = accts.drop_last();
        assert forall|i: int| 0 <= i < pre.len() implies key_lt(#[trigger] pre[i].0, k) by {
            assert(pre[i] == accts[i]);
        }
        lemma_flatten_bounded(pre, k);
        assert(key_lt(accts[accts.len() - 1].0, k));
        let last = accts.last();
        assert(last == accts[accts.len() - 1]);
        let fp = flatten(pre);
        let am = account_modules(last);
        assert(flatten(accts) == fp + am);
        assert forall|x: int| 0 <= x < (fp + am).len() implies key_lt(#[trigger] (fp + am)[x].0.0, k) by {
            if x < fp.len() {
                assert((fp + am)[x] == fp[x]);
            } else {
                assert((fp + am)[x] == am[x - fp.len()]);
            }
        }
    }
}

/// With accounts in increasing address order and each account's modules in
/// increasing name order, the flattened operations are in increasing
/// (address, name) order.
pub proof fn lemma_flatten_sorted(accts: Seq<(Seq<u8>, AccountChangeSet)>)
    requires
        keys_sorted(accts),
        forall|i: int| 0 <= i < accts.len() ==> (#[trigger] accts[i]).1.wf(),
    ensures
        ids_sorted(flatten(accts)),
    decreases accts.len(),
{
    if accts.len() > 0 {
        let pre = accts.drop_last();
        let last = accts.last();
        assert(keys_sorted(pre)) by {
            assert forall|i: int, j: int| 0 <= i < j < pre.len() implies key_lt(#[trigger] pre[i].0, #[trigger] pre[j].0) by {
                assert(pre[i] == accts[i] && pre[j] == accts[j]);
            }
        }
        assert forall|i: int| 0 <= i < pre.len() implies (#[trigger] pre[i]).1.wf() by {
            assert(pre[i] == accts[i]);
        }
        lemma_flatten_sorted(pre);
        let fp = flatten(pre);
        let am = account_modules(last);
        assert(last == accts[accts.len() - 1]);
        assert(last.1.wf());
        assert forall|i: int| 0 <= i < pre.len() implies key_lt(#[trigger] pre[i].0, last.0) by {
            assert(pre[i] == accts[i]);
        }
        lemma_flatten_bounded(pre, last.0);
        assert(flatten(accts) == fp + am);
        assert forall|x: int, y: int| 0 <= x < y < (fp + am).len() implies module_id_lt(#[trigger] (fp + am)[x].0, #[trigger] (fp + am)[y].0) by {
            if y < fp.len() {
                assert((fp + am)[x] == fp[x] && (fp + am)[y] == fp[y]);
            } else if x >= fp.len() {
                assert(key_lt(last.1@[x - fp.len()].0, last.1@[y - fp.len()].0));
            } else {
                assert(key_lt(fp[x].0.0, last.0));
            }
        }
    }
}

/// A collection of changes to the state, one change set per account.
#[derive(Debug, Clone, Eq, PartialEq, Ord, PartialOrd)]
pub struct ChangeSet {
    accounts: Vec<(AccountAddress, AccountChangeSet)>,
}

impl ChangeSet {
    /// The accounts, by address, with their change sets.
    pub closed spec fn accounts_view(&self) -> Seq<(Seq<u8>, AccountChangeSet)> {
        self.accounts@.map_values(|e: (AccountAddress, AccountChangeSet)| (e.0@, e.1))
    }

    /// Addresses are distinct and increasing, and every account's change set
    /// is well formed.
    pub open spec fn wf(&self) -> bool {
        &&& keys_sorted(self.accounts_view())
        &&& keys_distinct(self.accounts_view())
        &&& forall|i: int| 0 <= i < self.accounts_view().len() ==> (#[trigger] self.accounts_view()[i]).1.wf()
    }

    pub open spec fn account(&self, addr: Seq<u8>) -> Option<AccountChangeSet> {
        lookup(self.accounts_view(), addr)
    }

    /// The operation on module `name` of account `addr`, if any.
    pub open spec fn module_op(&self, addr: Seq<u8>, name: Seq<u8>) -> Option<Op<Seq<u8>>> {
        match self.account(addr) {
            Some(a) => a.module_op(name),
            None => None,
        }
    }

    /// The empty change set.
    pub fn new() -> (r: Self)
        ensures
            r.accounts_view() == Seq::<(Seq<u8>, AccountChangeSet)>::empty(),
            r.wf(),
    {
        let r = ChangeSet { accounts: Vec::new() };
        assert(r.accounts_view() =~= Seq::<(Seq<u8>, AccountChangeSet)>::empty());
        r
    }

    fn find_account(&self, addr: &Vec<u8>) -> (r: Result<usize, usize>)
        requires
            keys_sorted(self.accounts_view()),
        ensures
            r matches Ok(i) ==> i < self.accounts.len() && self.accounts_view()[i as int].0 == addr@,
            r matches Err(p) ==> insert_position(self.accounts_view(), addr@, p as int),
    {
        let ghost v = self.accounts_view();
        let mut i: usize = 0;
        while i < self.accounts.len()
            invariant
                i <= self.accounts.len(),
                v == self.accounts_view(),
                keys_sorted(v),
                forall|j: int| 0 <= j < i ==> key_lt(#[trigger] v[j].0, addr@),
            decreases self.accounts.len() - i,
        {
            if bytes_eq(&self.accounts[i].0.0, addr) {
                return Ok(i);
            }
            if bytes_lt(addr, &self.accounts[i].0.0) {
                proof {
                    lemma_insert_position(v, addr@, i as int);
                }
                return Err(i);
            }
            proof {
                lemma_key_lt_total(v[i as int].0, addr@);
            }
            i = i + 1;
        }
        proof {
            lemma_insert_position(v, addr@, i as int);
        }
        Err(i)
    }

    /// Records the change set of account `addr`; fails when the account
    /// already has one.
    pub fn add_account_changeset(&mut self, addr: AccountAddress, account_changeset: AccountChangeSet) -> (r: Result<(), ChangeSetError>)
        requires
            old(self).wf(),
            account_changeset.wf(),
        ensures
            final(self).wf(),
            old(self).account(addr@) is Some ==> r == Err::<(), ChangeSetError>(ChangeSetError::AccountExists)
                && final(self).accounts_view() == old(self).accounts_view(),
            old(self).account(addr@) is None ==> r is Ok && forall|a: Seq<u8>|
                #[trigger] final(self).account(a) == if a == addr@ { Some(account_changeset) } else { old(self).account(a) },
    {
        let ghost s = self.accounts_view();
        match self.find_account(&addr.0) {
            Ok(i) => {
                proof {
                    lemma_lookup_present(s, i as int);
                }
                Err(ChangeSetError::AccountExists)
            },
            Err(p) => {
                proof {
                    lemma_insert_position_absent(s, addr@, p as int);
                    lemma_lookup_absent(s, addr@);
                }
                let ghost e = (addr@, account_changeset);
                self.accounts.insert(p, (addr, account_changeset));
                proof {
                    self.lemma_insert_wf(s, p as int, e);
                }
                Ok(())
            },
        }
    }

    proof fn lemma_insert_wf(&self, s: Seq<(Seq<u8>, AccountChangeSet)>, p: int, e: (Seq<u8>, AccountChangeSet))
        requires
            self.accounts@.map_values(|e: (AccountAddress, AccountChangeSet)| (e.0@, e.1)) =~= s.insert(p, e),
            keys_sorted(s),
            forall|i: int| 0 <= i < s.len() ==> (#[trigger] s[i]).1.wf(),
            e.1.wf(),
            insert_position(s, e.0, p),
        ensures
            self.wf(),
            self.accounts_view() == s.insert(p, e),
            forall|a: Seq<u8>| #[trigger] self.account(a) == if a == e.0 { Some(e.1) } else { lookup(s, a) },
    {
        assert(self.accounts_view() == s.insert(p, e));
        lemma_lookup_insert(s, p, e);
        lemma_sorted_distinct(s.insert(p, e));
        assert forall|i: int| 0 <= i < s.len() + 1 implies (#[trigger] s.insert(p, e)[i]).1.wf() by {
            if i < p {
                assert(s.insert(p, e)[i] == s[i]);
            } else if i > p {
                assert(s.insert(p, e)[i] == s[i - 1]);
            }
        }
    }

    pub fn accounts(&self) -> (r: &Vec<(AccountAddress, AccountChangeSet)>)
        ensures
            r@.map_values(|e: (AccountAddress, AccountChangeSet)| (e.0@, e.1)) == self.accounts_view(),
    {
        &self.accounts
    }

    pub fn into_inner(self) -> (r: Vec<(AccountAddress, AccountChangeSet)>)
        ensures
            r@.map_values(|e: (AccountAddress, AccountChangeSet)| (e.0@, e.1)) == self.accounts_view(),
    {
        self.accounts
    }

    /// The position of account `addr`, which is added with an empty change
    /// set when it is not there yet.
    fn get_or_insert_account_changeset(&mut self, addr: &AccountAddress) -> (r: usize)
        requires
            old(self).wf(),
        ensures
            final(self).wf(),
            r < final(self).accounts@.len(),
            final(self).accounts_view()[r as int].0 == addr@,
            old(self).account(addr@) is Some ==> final(self).accounts_view() == old(self).accounts_view(),
            forall|a: Seq<u8>, n: Seq<u8>| #[trigger] final(self).module_op(a, n) == old(self).module_op(a, n),
    {
        let ghost s = self.accounts_view();
        match self.find_account(&addr.0) {
            Ok(i) => i,
            Err(p) => {
                proof {
                    lemma_insert_position_absent(s, addr@, p as int);
                    lemma_lookup_absent(s, addr@);
                }
                let acs = AccountChangeSet::new();
                let ghost e = (addr@, acs);
                self.accounts.insert(p, (AccountAddress(clone_bytes(&addr.0)), acs));
                proof {
                    self.lemma_insert_wf(s, p as int, e);
                    assert(self.accounts_view()[p as int] == e);
                    assert forall|a: Seq<u8>, n: Seq<u8>| #[trigger] self.module_op(a, n) == old(self).module_op(a, n) by {
                        if a == addr@ {
                            lemma_lookup_absent(acs@, n);
                        }
                    }
                }
                p
            },
        }
    }

    /// Records `op` on the module `module_id`; fails when that module
    /// already has an operation.
    pub fn add_module_op(&mut self, module_id: ModuleId, op: Op<Vec<u8>>) -> (r: Result<(), ChangeSetError>)
        requires
            old(self).wf(),
        ensures
            final(self).wf(),
            old(self).module_op(module_id.address@, module_id.name@) is Some ==> r == Err::<(), ChangeSetError>(
                ChangeSetError::ModuleExists,
            ) && final(self).accounts_view() == old(self).accounts_view(),
            old(self).module_op(module_id.address@, module_id.name@) is None ==> r is Ok && forall|a: Seq<u8>, n: Seq<u8>|
                #[trigger] final(self).module_op(a, n) == if a == module_id.address@ && n == module_id.name@ {
                    Some(op@)
                } else {
                    old(self).module_op(a, n)
                },
    {
        let idx = self.get_or_insert_account_changeset(&module_id.address);
        let ghost mid = self.accounts_view();
        let ghost mid_self = *self;
        assert(forall|a: Seq<u8>, n: Seq<u8>| #[trigger] mid_self.module_op(a, n) == old(self).module_op(a, n));
        proof {
            lemma_lookup_present(mid, idx as int);
        }
        let mut entry = self.accounts.remove(idx);
        let ghost acs0 = entry.1;
        assert(mid[idx as int] == (entry.0@, entry.1));
        assert(mid[idx as int].1.wf());
        assert(mid_self.account(module_id.address@) == Some(acs0));
        let r = entry.1.add_module_op(module_id.name, op);
        let ghost e = (entry.0@, entry.1);
        self.accounts.insert(idx, entry);
        proof {
            assert(self.accounts_view() =~= mid.update(idx as int, e));
            lemma_lookup_update(mid, idx as int, e);
            lemma_sorted_update(mid, idx as int, e);
            assert forall|a: int, b: int|
                0 <= a < mid.len() && 0 <= b < mid.len() && a != b implies #[trigger] mid.update(idx as int, e)[a].0
                != #[trigger] mid.update(idx as int, e)[b].0 by {
                assert(mid[a].0 != mid[b].0);
            }
            assert forall|i: int| 0 <= i < mid.len() implies (#[trigger] mid.update(idx as int, e)[i]).1.wf() by {
                assert(mid[i].1.wf());
            }
            if r is Ok {
                lemma_lookup_push(acs0@, (module_id.name@, op@));
            }
            assert(e.0 == module_id.address@);
            assert forall|a: Seq<u8>, n: Seq<u8>| #[trigger] self.module_op(a, n) == if r is Ok && a == module_id.address@ && n == module_id.name@ {
                Some(op@)
            } else {
                mid_self.module_op(a, n)
            } by {
                if a == module_id.address@ {
                    assert(self.account(a) == Some(e.1));
                    assert(self.module_op(a, n) == lookup(e.1@, n));
                    assert(mid_self.module_op(a, n) == lookup(acs0@, n));
                } else {
                    assert(self.account(a) == mid_self.account(a));
                }
            }
            assert(mid_self.module_op(module_id.address@, module_id.name@) == lookup(acs0@, module_id.name@));
            assert(old(self).module_op(module_id.address@, module_id.name@) == lookup(acs0@, module_id.name@));
            if r is Err {
                assert(e == mid[idx as int]);
                assert(mid.update(idx as int, e) =~= mid);
            }
        }
        r
    }

    proof fn lemma_update_wf(&self, mid: Seq<(Seq<u8>, AccountChangeSet)>, idx: int, e: (Seq<u8>, AccountChangeSet))
        requires
            self.accounts_view() =~= mid.update(idx, e),
            0 <= idx < mid.len(),
            mid[idx].0 == e.0,
            keys_sorted(mid),
            keys_distinct(mid),
            forall|i: int| 0 <= i < mid.len() ==> (#[trigger] mid[i]).1.wf(),
            e.1.wf(),
        ensures
            self.wf(),
            forall|a: Seq<u8>| #[trigger] self.account(a) == if a == e.0 { Some(e.1) } else { lookup(mid, a) },
    {
        lemma_lookup_update(mid, idx, e);
        lemma_sorted_update(mid, idx, e);
        assert forall|a: int, b: int|
            0 <= a < mid.len() && 0 <= b < mid.len() && a != b implies #[trigger] mid.update(idx, e)[a].0
            != #[trigger] mid.update(idx, e)[b].0 by {
            assert(mid[a].0 != mid[b].0);
        }
        assert forall|i: int| 0 <= i < mid.len() implies (#[trigger] mid.update(idx, e)[i]).1.wf() by {
            if i != idx {
                assert(mid[i].1.wf());
            }
        }
        assert forall|a: Seq<u8>| #[trigger] self.account(a) == if a == e.0 { Some(e.1) } else { lookup(mid, a) } by {
            assert(lookup(mid.update(idx, e), a) == if a == e.0 { Some(e.1) } else { lookup(mid, a) });
        }
    }

    /// Applies the changes of `other` after those of `self`, account by
    /// account and module by module. Fails when some module has
    /// contradictory operations; `self` may then hold part of the work.
    pub fn squash(&mut self, other: Self) -> (r: Result<(), ChangeSetError>)
        requires
            old(self).wf(),
            other.wf(),
        ensures
            final(self).wf(),
            r is Ok <==> accounts_squashable(old(self).accounts_view(), other.accounts_view()),
            r matches Err(e) ==> e == ChangeSetError::CannotSquash,
            r is Ok ==> forall|a: Seq<u8>|
                #[trigger] final(self).account(a) is Some <==> (old(self).account(a) is Some || other.account(a) is Some),
            r is Ok ==> forall|a: Seq<u8>, n: Seq<u8>|
                #[trigger] final(self).module_op(a, n) == squash_entry(old(self).module_op(a, n), other.module_op(a, n))->Some_0,
    {
        let ghost s0 = *self;
        let ghost o = other.accounts_view();
        let mut j: usize = 0;
        while j < other.accounts.len()
            invariant
                s0 == *old(self),
                o == other.accounts_view(),
                s0.wf(),
                other.wf(),
                self.wf(),
                j <= other.accounts.len(),
                forall|a: Seq<u8>|
                    #![trigger self.account(a)]
                    #![trigger lookup(o.take(j as int), a)]
                    if lookup(o.take(j as int), a) is Some {
                        &&& self.account(a) is Some
                        &&& s0.account(a) is Some ==> squashable(s0.account(a)->Some_0@, lookup(o, a)->Some_0@)
                    } else {
                        self.account(a) == s0.account(a)
                    },
                forall|a: Seq<u8>, n: Seq<u8>|
                    #![trigger self.module_op(a, n)]
                    lookup(o.take(j as int), a) is Some ==> self.module_op(a, n) == squash_entry(
                        s0.module_op(a, n),
                        other.module_op(a, n),
                    )->Some_0,
            decreases other.accounts.len() - j,
        {
            let ghost cur = self.accounts_view();
            let ghost cur_self = *self;
            let addr = &other.accounts[j].0;
            let acs = &other.accounts[j].1;
            let ghost aj = addr@;
            assert(o[j as int] == (aj, *acs));
            proof {
                lemma_lookup_present(o, j as int);
                assert forall|i: int| 0 <= i < o.take(j as int).len() implies (#[trigger] o.take(j as int)[i]).0 != aj by {
                    assert(o.take(j as int)[i] == o[i]);
                }
                lemma_lookup_absent(o.take(j as int), aj);
                assert(o.take(j + 1) =~= o.take(j as int).push(o[j as int]));
                lemma_lookup_push(o.take(j as int), o[j as int]);
                assert(acs.wf());
            }
            assert(self.account(aj) == s0.account(aj));
            match self.find_account(&addr.0) {
                Ok(idx) => {
                    proof {
                        lemma_lookup_present(cur, idx as int);
                    }
                    let mut entry = self.accounts.remove(idx);
                    let ghost acs0 = entry.1;
                    assert(cur[idx as int] == (entry.0@, entry.1));
                    assert(cur[idx as int].1.wf());
                    let r = squash(&mut entry.1.modules, &acs.modules);
                    let ghost e = (entry.0@, entry.1);
                    self.accounts.insert(idx, entry);
                    proof {
                        self.lemma_update_wf(cur, idx as int, e);
                    }
                    if r.is_err() {
                        assert(s0.account(aj) == Some(acs0));
                        assert(!squashable(acs0@, acs@));
                        assert(lookup(s0.accounts_view(), aj) is Some && lookup(o, aj) is Some);
                        return Err(ChangeSetError::CannotSquash);
                    }
                    proof {
                        assert forall|a: Seq<u8>, n: Seq<u8>|
                            #![trigger self.module_op(a, n)]
                            lookup(o.take(j + 1), a) is Some implies self.module_op(a, n) == squash_entry(
                                s0.module_op(a, n),
                                other.module_op(a, n),
                            )->Some_0 by {
                            if a == aj {
                                assert(self.account(a) == Some(e.1));
                                assert(s0.module_op(a, n) == lookup(acs0@, n));
                                assert(other.module_op(a, n) == lookup(acs@, n));
                            } else {
                                assert(self.module_op(a, n) == cur_self.module_op(a, n));
                            }
                        }
                    }
                },
                Err(p) => {
                    proof {
                        lemma_insert_position_absent(cur, aj, p as int);
                        lemma_lookup_absent(cur, aj);
                    }
                    let dup = acs.duplicate();
                    let ghost e = (aj, dup);
                    self.accounts.insert(p, (AccountAddress(clone_bytes(&addr.0)), dup));
                    proof {
                        self.lemma_insert_wf(cur, p as int, e);
                        assert forall|a: Seq<u8>, n: Seq<u8>|
                            #![trigger self.module_op(a, n)]
                            lookup(o.take(j + 1), a) is Some implies self.module_op(a, n) == squash_entry(
                                s0.module_op(a, n),
                                other.module_op(a, n),
                            )->Some_0 by {
                            if a == aj {
                                assert(self.account(a) == Some(dup));
                                assert(other.module_op(a, n) == lookup(acs@, n));
                            } else {
                                assert(self.module_op(a, n) == cur_self.module_op(a, n));
                            }
                        }
                    }
                },
            }
            j = j + 1;
        }
        proof {
            assert(o.take(other.accounts.len() as int) =~= o);
            assert forall|a: Seq<u8>, n: Seq<u8>|
                #[trigger] self.module_op(a, n) == squash_entry(s0.module_op(a, n), other.module_op(a, n))->Some_0 by {
                if lookup(o, a) is None {
                    assert(lookup(o.take(other.accounts.len() as int), a) is None);
                    assert(self.account(a) == s0.account(a));
                }
            }
            assert forall|a: Seq<u8>|
                #[trigger] self.account(a) is Some <==> (s0.account(a) is Some || other.account(a) is Some) by {
                assert(lookup(o.take(other.accounts.len() as int), a) == lookup(o, a));
            }
            assert forall|a: Seq<u8>|
                #![trigger lookup(s0.accounts_view(), a), lookup(o, a)]
                lookup(s0.accounts_view(), a) is Some && lookup(o, a) is Some implies squashable(
                lookup(s0.accounts_view(), a)->Some_0@,
                lookup(o, a)->Some_0@,
            ) by {
                assert(lookup(o.take(other.accounts.len() as int), a) == lookup(o, a));
                assert(self.account(a) is Some);
            }
        }
        Ok(())
    }

    /// Every module operation with the identity of its module, account
    /// after account.
    pub fn into_modules(self) -> (r: Vec<(ModuleId, Op<Vec<u8>>)>)
        requires
            self.wf(),
        ensures
            r@.map_values(|x: (ModuleId, Op<Vec<u8>>)| (x.0@, x.1@)) == flatten(self.accounts_view()),
            ids_sorted(flatten(self.accounts_view())),
    {
        proof {
            lemma_flatten_sorted(self.accounts_view());
        }
        let ghost accts = self.accounts_view();
        let mut r: Vec<(ModuleId, Op<Vec<u8>>)> = Vec::new();
        let mut i: usize = 0;
        while i < self.accounts.len()
            invariant
                accts == self.accounts_view(),
                i <= self.accounts.len(),
                r@.map_values(|x: (ModuleId, Op<Vec<u8>>)| (x.0@, x.1@)) == flatten(accts.take(i as int)),
            decreases self.accounts.len() - i,
        {
            let addr = &self.accounts[i].0;
            let modules = &self.accounts[i].1.modules;
            let ghost base = flatten(accts.take(i as int));
            let ghost am = account_modules(accts[i as int]);
            assert(accts[i as int] == (addr@, self.accounts[i as int].1));
            let mut k: usize = 0;
            while k < modules.len()
                invariant
                    k <= modules.len(),
                    am == account_modules((addr@, self.accounts[i as int].1)),
                    entries_view(modules@) == self.accounts[i as int].1@,
                    r@.map_values(|x: (ModuleId, Op<Vec<u8>>)| (x.0@, x.1@)) == base + am.take(k as int),
                decreases modules.len() - k,
            {
                let ghost before = r@;
                let item = (
                    ModuleId { address: AccountAddress(clone_bytes(&addr.0)), name: Identifier(clone_bytes(&modules[k].0.0)) },
                    clone_op(&modules[k].1),
                );
                assert((item.0@, item.1@) == am[k as int]);
                r.push(item);
                assert(r@.map_values(|x: (ModuleId, Op<Vec<u8>>)| (x.0@, x.1@)) =~= before.map_values(
                    |x: (ModuleId, Op<Vec<u8>>)| (x.0@, x.1@),
                ).push(am[k as int]));
                assert(base + am.take(k + 1) =~= (base + am.take(k as int)).push(am[k as int]));
                k = k + 1;
            }
            assert(am.take(modules.len() as int) =~= am);
            assert(accts.take(i + 1).drop_last() =~= accts.take(i as int));
            assert(accts.take(i + 1).last() == accts[i as int]);
            i = i + 1;
        }
        assert(accts.take(self.accounts.len() as int) =~= accts);
        r
    }

    /// Every module operation with the address and name of its module,
    /// account after account.
    pub fn modules(&self) -> (r: Vec<(AccountAddress, Identifier, Op<Vec<u8>>)>)
        requires
            self.wf(),
        ensures
            r@.map_values(|x: (AccountAddress, Identifier, Op<Vec<u8>>)| ((x.0@, x.1@), x.2@)) == flatten(self.accounts_view()),
            ids_sorted(flatten(self.accounts_view())),
    {
        proof {
            lemma_flatten_sorted(self.accounts_view());
        }
        let ghost accts = self.accounts_view();
        let mut r: Vec<(AccountAddress, Identifier, Op<Vec<u8>>)> = Vec::new();
        let mut i: usize = 0;
        while i < self.accounts.len()
            invariant
                accts == self.accounts_view(),
                i <= self.accounts.len(),
                r@.map_values(|x: (AccountAddress, Identifier, Op<Vec<u8>>)| ((x.0@, x.1@), x.2@)) == flatten(accts.take(i as int)),
            decreases self.accounts.len() - i,
        {
            let addr = &self.accounts[i].0;
            let modules = &self.accounts[i].1.modules;
            let ghost base = flatten(accts.take(i as int));
            let ghost am = account_modules(accts[i as int]);
            assert(accts[i as int] == (addr@, self.accounts[i as int].1));
            let mut k: usize = 0;
            while k < modules.len()
                invariant
                    k <= modules.len(),
                    am == account_modules((addr@, self.accounts[i as int].1)),
                    entries_view(modules@) == self.accounts[i as int].1@,
                    r@.map_values(|x: (AccountAddress, Identifier, Op<Vec<u8>>)| ((x.0@, x.1@), x.2@)) == base + am.take(k as int),
                decreases modules.len() - k,
            {
                let ghost before = r@;
                let item = (
                    AccountAddress(clone_bytes(&addr.0)),
                    Identifier(clone_bytes(&modules[k].0.0)),
                    clone_op(&modules[k].1),
                );
                assert(((item.0@, item.1@), item.2@) == am[k as int]);
                r.push(item);
                assert(r@.map_values(|x: (AccountAddress, Identifier, Op<Vec<u8>>)| ((x.0@, x.1@), x.2@)) =~= before.map_values(
                    |x: (AccountAddress, Identifier, Op<Vec<u8>>)| ((x.0@, x.1@), x.2@),
                ).push(am[k as int]));
                assert(base + am.take(k + 1) =~= (base + am.take(k as int)).push(am[k as int]));
                k = k + 1;
            }
            assert(am.take(modules.len() as int) =~= am);
            assert(accts.take(i + 1).drop_last() =~= accts.take(i as int));
            assert(accts.take(i + 1).last() == accts[i as int]);
            i = i + 1;
        }
        assert(accts.take(self.accounts.len() as int) =~= accts);
        r
    }
} // impl ChangeSet

impl Default for ChangeSet {
    fn default() -> (r: Self)
        ensures
            r.accounts_view() == Seq::<(Seq<u8>, AccountChangeSet)>::empty(),
            r.wf(),
    {
        Self::new()
    }
}

} // verus!
