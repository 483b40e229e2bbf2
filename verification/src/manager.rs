//! The registry: the accounts in the order in which they were added, and an
//! index from identity to position.

use crate::account::{Account, UserAttributes, UserMetadata};
use crate::email::Email;
use crate::verify::{CODE_END, CODE_MIN};
use crate::error::Error;
use dashmap::DashMap;
use vstd::prelude::*;

verus! {

#[verifier::external_type_specification]
#[verifier::external_body]
#[verifier::reject_recursive_types(K)]
#[verifier::reject_recursive_types(V)]
#[verifier::reject_recursive_types(S)]
pub struct ExDashMap<K, V, S>(DashMap<K, V, S>);

/// The entries that an index holds.
pub uninterp spec fn index_entries(index: DashMap<u64, usize>) -> Map<u64, usize>;

/// The index without entries.
pub open spec fn empty_index() -> Map<u64, usize> {
    Map::empty()
}

/// Calls `DashMap::new`: a map without entries.
#[verifier::external_body]
fn index_new() -> (table: DashMap<u64, usize>)
    ensures
        index_entries(table) == empty_index(),
{
    DashMap::new()
}

/// Calls `DashMap::clear`, which removes every entry.
#[verifier::external_body]
fn index_clear(table: &mut DashMap<u64, usize>)
    ensures
        index_entries(*final(table)) == empty_index(),
{
    table.clear()
}

/// Calls `DashMap::insert`, which sets the entry of `key` to `value` and
/// returns the value that `key` had before, if it had one.
#[verifier::external_body]
fn index_insert(table: &mut DashMap<u64, usize>, key: u64, value: usize) -> (before: Option<usize>)
    ensures
        index_entries(*final(table)) == index_entries(*old(table)).insert(key, value),
        before == (if index_entries(*old(table)).contains_key(key) {
            Some(index_entries(*old(table))[key])
        } else {
            None
        }),
{
    table.insert(key, value)
}

/// Calls `DashMap::get` and copies the value out of the guard it returns: the
/// value of `key`, if it has one.
#[verifier::external_body]
fn index_get(table: &DashMap<u64, usize>, key: u64) -> (value: Option<usize>)
    ensures
        value == (if index_entries(*table).contains_key(key) {
            Some(index_entries(*table)[key])
        } else {
            None
        }),
{
    table.get(&key).map(|entry| *entry)
}

/// Calls `DashMap::clone`, which copies every shard: the copy holds the same
/// entries.
#[verifier::external_body]
fn index_copy(table: &DashMap<u64, usize>) -> (copy: DashMap<u64, usize>)
    ensures
        index_entries(copy) == index_entries(*table),
{
    table.clone()
}

/// Failures of the registry's operations.
#[derive(Debug)]
pub enum ManagerError {
    /// The account with this identity failed with this error.
    Account(u64, Error),
    /// No account has this identity.
    NotFound(u64),
}

impl ManagerError {
    /// The HTTP status that stands for this failure.
    pub open spec fn spec_response_code(self) -> u16 {
        match self {
            ManagerError::Account(_, value) => value.spec_response_code(),
            ManagerError::NotFound(_) => 404,
        }
    }

    /// The HTTP status that stands for this failure: 404 for an unknown
    /// identity, else that of the account's own failure.
    pub fn response_code(&self) -> (r: u16)
        ensures
            r == self.spec_response_code(),
    {
        match self {
            ManagerError::Account(_, value) => value.response_code(),
            ManagerError::NotFound(_) => 404,
        }
    }
}

/// The index of the accounts `s`: each identity with the last position that
/// holds it.
pub open spec fn index_of(s: Seq<Account>) -> Map<u64, usize>
    decreases s.len(),
{
    if s.len() == 0 {
        Map::empty()
    } else {
        index_of(s.drop_last()).insert(s.last().spec_id(), (s.len() - 1) as usize)
    }
}

/// Whether some account of `s` has the identity `id`.
pub open spec fn has_id(s: Seq<Account>, id: u64) -> bool {
    exists|i: int| 0 <= i < s.len() && (#[trigger] s[i]).spec_id() == id
}

/// The index knows exactly the identities that occur, and leads each to a
/// position that holds it, the last one.
pub proof fn lemma_index_of(s: Seq<Account>, id: u64)
    requires
        s.len() <= usize::MAX,
    ensures
        index_of(s).contains_key(id) <==> has_id(s, id),
        index_of(s).contains_key(id) ==> {
            &&& 0 <= index_of(s)[id] < s.len()
            &&& s[index_of(s)[id] as int].spec_id() == id
            &&& forall|j: int| index_of(s)[id] < j < s.len() ==> (#[trigger] s[j]).spec_id() != id
        },
    decreases s.len(),
{
    if s.len() > 0 {
        let p = s.drop_last();
        lemma_index_of(p, id);
        if has_id(s, id) {
            let i = choose|i: int| 0 <= i < s.len() && (#[trigger] s[i]).spec_id() == id;
            if i < p.len() {
                assert(p[i].spec_id() == id);
            }
        }
        if has_id(p, id) {
            let i = choose|i: int| 0 <= i < p.len() && (#[trigger] p[i]).spec_id() == id;
            assert(s[i].spec_id() == id);
        }
        if s.last().spec_id() == id {
            assert(s[s.len() - 1].spec_id() == id);
        } else if index_of(s).contains_key(id) {
            let k = index_of(p)[id] as int;
            assert(s[k] == p[k]);
            assert forall|j: int| k < j < s.len() implies (#[trigger] s[j]).spec_id() != id by {
                if j < p.len() {
                    assert(p[j].spec_id() != id);
                }
            }
        }
    }
}

/// The accounts of `s` that are not stale at `now`, in their order.
pub open spec fn fresh(s: Seq<Account>, now: i64) -> Seq<Account>
    decreases s.len(),
{
    if s.len() == 0 {
        s
    } else if s.last().spec_is_stale(now) {
        fresh(s.drop_last(), now)
    } else {
        fresh(s.drop_last(), now).push(s.last())
    }
}

/// The index depends on the identities alone.
pub proof fn lemma_index_same_ids(a: Seq<Account>, b: Seq<Account>)
    requires
        a.len() == b.len(),
        forall|i: int| 0 <= i < a.len() ==> (#[trigger] a[i]).spec_id() == (#[trigger] b[i]).spec_id(),
    ensures
        index_of(a) == index_of(b),
    decreases a.len(),
{
    if a.len() > 0 {
        assert forall|i: int| 0 <= i < a.drop_last().len() implies (#[trigger] a.drop_last()[i]).spec_id()
            == (#[trigger] b.drop_last()[i]).spec_id() by {
            assert(a[i].spec_id() == b[i].spec_id());
        }
        lemma_index_same_ids(a.drop_last(), b.drop_last());
        assert(a[a.len() - 1].spec_id() == b[a.len() - 1].spec_id());
    }
}

/// Which identities occur depends on the identities alone.
pub proof fn lemma_has_id_same_ids(a: Seq<Account>, b: Seq<Account>, id: u64)
    requires
        a.len() == b.len(),
        forall|i: int| 0 <= i < a.len() ==> (#[trigger] a[i]).spec_id() == (#[trigger] b[i]).spec_id(),
    ensures
        has_id(a, id) <==> has_id(b, id),
{
    if has_id(a, id) {
        let i = choose|i: int| 0 <= i < a.len() && (#[trigger] a[i]).spec_id() == id;
        assert(b[i].spec_id() == id);
    }
    if has_id(b, id) {
        let i = choose|i: int| 0 <= i < b.len() && (#[trigger] b[i]).spec_id() == id;
        assert(a[i].spec_id() == id);
    }
}

/// An identity survives the sweep exactly if an account that is not stale
/// has it.
pub proof fn lemma_fresh_ids(s: Seq<Account>, now: i64, id: u64)
    ensures
        has_id(fresh(s, now), id) <==> exists|i: int|
            0 <= i < s.len() && (#[trigger] s[i]).spec_id() == id && !s[i].spec_is_stale(now),
    decreases s.len(),
{
    if s.len() > 0 {
        let p = s.drop_last();
        let f = fresh(s, now);
        let fp = fresh(p, now);
        lemma_fresh_ids(p, now, id);
        if has_id(f, id) {
            let k = choose|k: int| 0 <= k < f.len() && (#[trigger] f[k]).spec_id() == id;
            if !s.last().spec_is_stale(now) && k == f.len() - 1 {
                assert(s[s.len() - 1].spec_id() == id);
            } else {
                assert(fp[k].spec_id() == id);
                let i = choose|i: int|
                    0 <= i < p.len() && (#[trigger] p[i]).spec_id() == id && !p[i].spec_is_stale(now);
                assert(s[i].spec_id() == id && !s[i].spec_is_stale(now));
            }
        }
        if exists|i: int|
            0 <= i < s.len() && (#[trigger] s[i]).spec_id() == id && !s[i].spec_is_stale(now) {
            let i = choose|i: int|
                0 <= i < s.len() && (#[trigger] s[i]).spec_id() == id && !s[i].spec_is_stale(now);
            if i == s.len() - 1 {
                assert(f[f.len() - 1].spec_id() == id);
            } else {
                assert(p[i].spec_id() == id && !p[i].spec_is_stale(now));
                let k = choose|k: int| 0 <= k < fp.len() && (#[trigger] fp[k]).spec_id() == id;
                assert(f[k].spec_id() == id);
            }
        }
    }
}

/// No two accounts of `s` have the same identity.
pub open spec fn unique_ids(s: Seq<Account>) -> bool {
    forall|i: int, j: int|
        0 <= i < j < s.len() ==> (#[trigger] s[i]).spec_id() != (#[trigger] s[j]).spec_id()
}

/// The sweep keeps the identities distinct.
pub proof fn lemma_fresh_unique(s: Seq<Account>, now: i64)
    requires
        unique_ids(s),
    ensures
        unique_ids(fresh(s, now)),
    decreases s.len(),
{
    if s.len() > 0 {
        let p = s.drop_last();
        assert forall|i: int, j: int| 0 <= i < j < p.len() implies (#[trigger] p[i]).spec_id() != (
        #[trigger] p[j]).spec_id() by {
            assert(s[i].spec_id() != s[j].spec_id());
        }
        lemma_fresh_unique(p, now);
        let f = fresh(s, now);
        let fp = fresh(p, now);
        if !s.last().spec_is_stale(now) {
            assert forall|i: int, j: int| 0 <= i < j < f.len() implies (#[trigger] f[i]).spec_id() != (
            #[trigger] f[j]).spec_id() by {
                if j == f.len() - 1 {
                    if f[i].spec_id() == s.last().spec_id() {
                        assert(fp[i].spec_id() == s.last().spec_id());
                        lemma_fresh_ids(p, now, s.last().spec_id());
                        let k = choose|k: int|
                            0 <= k < p.len() && (#[trigger] p[k]).spec_id() == s.last().spec_id()
                                && !p[k].spec_is_stale(now);
                        assert(s[k].spec_id() == s[s.len() - 1].spec_id());
                    }
                } else {
                    assert(fp[i].spec_id() != fp[j].spec_id());
                }
            }
        }
    }
}

/// Distinct identities at the positions of `b` follow from those of `a`
/// where the two agree on every identity.
pub proof fn lemma_unique_same_ids(a: Seq<Account>, b: Seq<Account>)
    requires
        a.len() == b.len(),
        forall|i: int| 0 <= i < a.len() ==> (#[trigger] a[i]).spec_id() == (#[trigger] b[i]).spec_id(),
        unique_ids(a),
    ensures
        unique_ids(b),
{
    assert forall|i: int, j: int| 0 <= i < j < b.len() implies (#[trigger] b[i]).spec_id() != (
    #[trigger] b[j]).spec_id() by {
        assert(a[i].spec_id() != a[j].spec_id());
    }
}

/// The registry of accounts.
pub struct AccountManager {
    accounts: Vec<Account>,
    /// An index cache for getting a position from an identity.
    index: DashMap<u64, usize>,
}

impl View for AccountManager {
    type V = Seq<Account>;

    closed spec fn view(&self) -> Seq<Account> {
        self.accounts@
    }
}

impl AccountManager {
    /// What the index cache holds.
    pub closed spec fn spec_index(&self) -> Map<u64, usize> {
        index_entries(self.index)
    }

    /// The index reflects the accounts' current positions.
    pub closed spec fn wf(&self) -> bool {
        index_entries(self.index) == index_of(self.accounts@)
    }

    /// No two accounts have the same identity.
    pub open spec fn unique(&self) -> bool {
        unique_ids(self@)
    }

    /// The position that the index gives for `id`.
    pub open spec fn position(&self, id: u64) -> Option<int> {
        if has_id(self@, id) {
            Some(index_of(self@)[id] as int)
        } else {
            None
        }
    }

    /// A registry without accounts.
    pub fn new() -> (r: AccountManager)
        ensures
            r.wf(),
            r.unique(),
            r@ == Seq::<Account>::empty(),
    {
        AccountManager { accounts: Vec::new(), index: index_new() }
    }

    /// A registry of the given accounts, such as those read from the durable
    /// store at startup.
    pub fn from_accounts(accounts: Vec<Account>) -> (r: AccountManager)
        ensures
            r.wf(),
            r@ == accounts@,
    {
        let mut manager = AccountManager { accounts, index: index_new() };
        manager.update_index();
        manager
    }

    /// The accounts, in their order.
    pub fn inner(&self) -> (r: &Vec<Account>)
        ensures
            r@ == self@,
    {
        &self.accounts
    }

    /// A copy of the index cache. Changing the copy does not touch the
    /// registry.
    pub fn index(&self) -> (r: DashMap<u64, usize>)
        ensures
            index_entries(r) == self.spec_index(),
            self.wf() ==> index_entries(r) == index_of(self@),
    {
        index_copy(&self.index)
    }

    /// Clears the index and fills it again from the accounts.
    pub fn update_index(&mut self)
        ensures
            final(self).wf(),
            old(self).unique() ==> final(self).unique(),
            final(self)@ == old(self)@,
    {
        index_clear(&mut self.index);
        let mut i: usize = 0;
        while i < self.accounts.len()
            invariant
                i <= self.accounts@.len(),
                self.accounts@ == old(self).accounts@,
                index_entries(self.index) == index_of(self.accounts@.take(i as int)),
            decreases self.accounts@.len() - i,
        {
            proof {
                assert(self.accounts@.take(i + 1).drop_last() == self.accounts@.take(i as int));
            }
            let id = self.accounts[i].id();
            let _ = index_insert(&mut self.index, id, i);
            i += 1;
        }
        proof {
            assert(self.accounts@.take(i as int) == self.accounts@);
        }
    }

    /// The position of the account with identity `id`, if there is one.
    pub fn find(&self, id: u64) -> (r: Option<usize>)
        requires
            self.wf(),
        ensures
            match r {
                Some(p) => self.position(id) == Some(p as int) && p < self@.len() && self@[p as int].spec_id()
                    == id,
                None => self.position(id) is None,
            },
    {
        let count = self.accounts.len();
        proof {
            assert(self.accounts@.len() == count);
            lemma_index_of(self.accounts@, id);
        }
        index_get(&self.index, id)
    }

    /// The account with identity `id`, or `NotFound`.
    pub fn lookup(&self, id: u64) -> (r: Result<&Account, ManagerError>)
        requires
            self.wf(),
        ensures
            match r {
                Ok(account) => self.position(id) matches Some(p) && *account == self@[p]
                    && account.spec_id() == id,
                Err(e) => self.position(id) is None && e == ManagerError::NotFound(id),
            },
    {
        match self.find(id) {
            Some(p) => Ok(&self.accounts[p]),
            None => Err(ManagerError::NotFound(id)),
        }
    }

    /// Appends `account`; fails with `Conflict`, changing nothing, where its
    /// identity is taken.
    pub fn push(&mut self, account: Account) -> (r: Result<(), Error>)
        requires
            old(self).wf(),
        ensures
            final(self).wf(),
            old(self).unique() ==> final(self).unique(),
            match r {
                Ok(_) => !has_id(old(self)@, account.spec_id()) && final(self)@ == old(self)@.push(
                    account,
                ),
                Err(e) => has_id(old(self)@, account.spec_id()) && e == Error::Conflict
                    && final(self)@ == old(self)@,
            },
    {
        let id = account.id();
        match self.find(id) {
            Some(_) => Err(Error::Conflict),
            None => {
                let at = self.accounts.len();
                self.accounts.push(account);
                let _ = index_insert(&mut self.index, id, at);
                proof {
                    assert(self.accounts@.drop_last() == old(self).accounts@);
                    if old(self).unique() {
                        assert forall|i: int, j: int| 0 <= i < j < self.accounts@.len() implies (
                        #[trigger] self.accounts@[i]).spec_id() != (
                        #[trigger] self.accounts@[j]).spec_id() by {
                            assert(old(self).accounts@[i].spec_id() == self.accounts@[i].spec_id());
                            if j < at {
                                assert(old(self).accounts@[j].spec_id() == self.accounts@[j].spec_id());
                            }
                        }
                    }
                }
                Ok(())
            },
        }
    }

    /// Removes the account with identity `id`, if there is one, and rebuilds
    /// the index. Returns whether there was one.
    pub fn remove(&mut self, id: u64) -> (r: bool)
        requires
            old(self).wf(),
        ensures
            final(self).wf(),
            old(self).unique() ==> final(self).unique(),
            match old(self).position(id) {
                Some(p) => r && final(self)@ == old(self)@.remove(p),
                None => !r && final(self)@ == old(self)@,
            },
    {
        let r = match self.find(id) {
            Some(p) => {
                let _ = self.accounts.remove(p);
                proof {
                    if old(self).unique() {
                        assert forall|i: int, j: int| 0 <= i < j < self.accounts@.len() implies (
                        #[trigger] self.accounts@[i]).spec_id() != (
                        #[trigger] self.accounts@[j]).spec_id() by {
                            let a = if i < p { i } else { i + 1 };
                            let b = if j < p { j } else { j + 1 };
                            assert(old(self).accounts@[a].spec_id() != old(self).accounts@[b].spec_id());
                        }
                    }
                }
                true
            },
            None => false,
        };
        self.update_index();
        r
    }

    /// Removes every account.
    pub fn reset(&mut self)
        ensures
            final(self).wf(),
            final(self).unique(),
            final(self)@ == Seq::<Account>::empty(),
    {
        self.accounts = Vec::new();
        index_clear(&mut self.index);
    }

    /// `self` has the accounts of `before`, but for the one at `p`.
    pub open spec fn changed_at(&self, before: AccountManager, p: int) -> bool {
        &&& self@.len() == before@.len()
        &&& forall|k: int| 0 <= k < self@.len() && k != p ==> self@[k] == before@[k]
    }

    /// Sweeps the registry at `now`: drops every unverified account whose
    /// code is expired, rebuilding the index if any was dropped, then drops
    /// from each remaining account its expired tokens and an expired pending
    /// reset.
    pub fn refresh_all(&mut self, now: i64)
        requires
            old(self).wf(),
        ensures
            final(self).wf(),
            old(self).unique() ==> final(self).unique(),
            final(self)@.len() == fresh(old(self)@, now).len(),
            forall|k: int|
                0 <= k < final(self)@.len() ==> (#[trigger] final(self)@[k]).refreshed_from(
                    fresh(old(self)@, now)[k],
                    now,
                ),
            forall|id: u64|
                final(self).position(id) is Some <==> exists|i: int|
                    0 <= i < old(self)@.len() && (#[trigger] old(self)@[i]).spec_id() == id && !old(self)@[i].spec_is_stale(now),
    {
        let ghost orig = self.accounts@;
        let mut removed = false;
        let mut i: usize = 0;
        let ghost mut j: int = 0;
        while i < self.accounts.len()
            invariant
                i <= self.accounts@.len(),
                0 <= j <= orig.len(),
                self.accounts@.len() - i == orig.len() - j,
                self.accounts@.take(i as int) == fresh(orig.take(j), now),
                self.accounts@.skip(i as int) == orig.skip(j),
                !removed ==> self.accounts@ == orig,
                self.index == old(self).index,
            decreases self.accounts@.len() - i,
        {
            let ghost before = self.accounts@;
            proof {
                assert(orig.take(j + 1).drop_last() == orig.take(j));
                assert(before.skip(i as int)[0] == orig.skip(j)[0]);
                assert(before.skip(i as int).skip(1) == before.skip(i + 1));
                assert(orig.skip(j).skip(1) == orig.skip(j + 1));
            }
            if self.accounts[i].is_stale(now) {
                let _ = self.accounts.remove(i);
                removed = true;
                proof {
                    assert(self.accounts@.take(i as int) == before.take(i as int));
                    assert(self.accounts@.skip(i as int) == before.skip(i + 1));
                }
            } else {
                proof {
                    assert(before.take(i + 1) == before.take(i as int).push(before[i as int]));
                }
                i += 1;
            }
            proof {
                j = j + 1;
            }
        }
        proof {
            assert(orig.take(orig.len() as int) == orig);
            assert(self.accounts@.take(i as int) == self.accounts@);
        }
        if removed {
            self.update_index();
        }
        let ghost kept = self.accounts@;
        assert(kept == fresh(orig, now));
        let mut i: usize = 0;
        while i < self.accounts.len()
            invariant
                i <= self.accounts@.len(),
                self.accounts@.len() == kept.len(),
                forall|k: int| 0 <= k < i ==> (#[trigger] self.accounts@[k]).refreshed_from(kept[k], now),
                forall|k: int| i <= k < kept.len() ==> self.accounts@[k] == kept[k],
                forall|k: int|
                    0 <= k < kept.len() ==> (#[trigger] self.accounts@[k]).spec_id() == (
                    #[trigger] kept[k]).spec_id(),
                index_entries(self.index) == index_of(kept),
                kept == fresh(orig, now),
            decreases self.accounts@.len() - i,
        {
            self.accounts[i].refresh(now);
            i += 1;
        }
        proof {
            lemma_index_same_ids(self.accounts@, kept);
            if old(self).unique() {
                lemma_fresh_unique(orig, now);
                lemma_unique_same_ids(kept, self.accounts@);
            }
            assert forall|id: u64|
                self.position(id) is Some <==> exists|i: int|
                    0 <= i < orig.len() && (#[trigger] orig[i]).spec_id() == id
                        && !orig[i].spec_is_stale(now) by {
                lemma_has_id_same_ids(self.accounts@, kept, id);
                lemma_fresh_ids(orig, now, id);
                assert(self.position(id) is Some <==> has_id(fresh(orig, now), id));
            }
        }
    }

    /// Sweeps the account with identity `id` at `now`: removes it if it is
    /// unverified and its code is expired, else drops its expired tokens and
    /// an expired pending reset. Does nothing where there is no such account.
    pub fn refresh(&mut self, id: u64, now: i64)
        requires
            old(self).wf(),
        ensures
            final(self).wf(),
            old(self).unique() ==> final(self).unique(),
            match old(self).position(id) {
                None => final(self)@ == old(self)@,
                Some(p) => if old(self)@[p].spec_is_stale(now) {
                    final(self)@ == old(self)@.remove(p)
                } else {
                    final(self).changed_at(*old(self), p) && final(self)@[p].refreshed_from(
                        old(self)@[p],
                        now,
                    )
                },
            },
    {
        match self.find(id) {
            None => {},
            Some(p) => {
                if self.accounts[p].is_stale(now) {
                    let _ = self.remove(id);
                } else {
                    self.accounts[p].refresh(now);
                    proof {
                        lemma_index_same_ids(self.accounts@, old(self).accounts@);
                            if old(self).unique() {
                                lemma_unique_same_ids(old(self).accounts@, self.accounts@);
                            }
                    }
                }
            },
        }
    }

    /// What an operation on the account `id` returns that the account itself
    /// answers with `inner`.
    pub open spec fn wrapped(id: u64, inner: Result<(), Error>) -> Result<(), ManagerError> {
        match inner {
            Ok(_) => Ok(()),
            Err(e) => Err(ManagerError::Account(id, e)),
        }
    }

    /// Registers `email` at `now` under the given code and returns the new
    /// account's identity. Fails, changing nothing, where the address is not
    /// institutional, the expiry is out of range, or the identity is taken.
    pub fn register_with(&mut self, email: Email, code: u32, now: i64) -> (r: Result<u64, Error>)
        requires
            old(self).wf(),
        ensures
            final(self).wf(),
            old(self).unique() ==> final(self).unique(),
            match r {
                Ok(id) => {
                    &&& Account::register_result(email, now) is Ok
                    &&& !has_id(old(self)@, id)
                    &&& id == email.spec_id()
                    &&& crate::email::address_hash(email@) == Some(id)
                    &&& final(self)@ == old(self)@.push(
                        Account::Unverified(
                            crate::verify::Context {
                                email,
                                code,
                                expire_time: (now + crate::verify::CODE_LIFETIME) as i64,
                            },
                        ),
                    )
                    &&& final(self).position(id) == Some(old(self)@.len() as int)
                },
                Err(e) => {
                    &&& final(self)@ == old(self)@
                    &&& match Account::register_result(email, now) {
                        Ok(_) => has_id(old(self)@, email.spec_id()) && e == Error::Conflict,
                        Err(inner) => e == inner,
                    }
                },
            },
    {
        match Account::unverified(email, code, now) {
            Err(e) => Err(e),
            Ok(account) => {
                let id = account.id();
                match self.push(account) {
                    Ok(()) => {
                        let count = self.accounts.len();
                        proof {
                            assert(self@.len() == count);
                            assert(self@[self@.len() - 1].spec_id() == id);
                            lemma_index_of(self@, id);
                        }
                        Ok(id)
                    },
                    Err(e) => Err(e),
                }
            },
        }
    }

    /// Registers `email` at `now` under a code drawn at random and returns
    /// the identity and the code, for the caller to mail.
    pub fn register(&mut self, email: Email, now: i64) -> (r: Result<(u64, u32), Error>)
        requires
            old(self).wf(),
        ensures
            final(self).wf(),
            old(self).unique() ==> final(self).unique(),
            match r {
                Ok((id, code)) => {
                    &&& Account::register_result(email, now) is Ok
                    &&& CODE_MIN <= code < CODE_END
                    &&& id == email.spec_id()
                    &&& final(self)@ == old(self)@.push(
                        Account::Unverified(
                            crate::verify::Context {
                                email,
                                code,
                                expire_time: (now + crate::verify::CODE_LIFETIME) as i64,
                            },
                        ),
                    )
                    &&& final(self).position(id) == Some(old(self)@.len() as int)
                },
                Err(e) => {
                    &&& final(self)@ == old(self)@
                    &&& match Account::register_result(email, now) {
                        Ok(_) => has_id(old(self)@, email.spec_id()) && e == Error::Conflict,
                        Err(inner) => e == inner,
                    }
                },
            },
    {
        let code = crate::verify::random_code();
        match self.register_with(email, code, now) {
            Ok(id) => Ok((id, code)),
            Err(e) => Err(e),
        }
    }

    /// Activates the account `id` with `code`, not expired at `now`, and
    /// `attributes`. The account keeps its identity, its address and its
    /// position.
    pub fn activate(&mut self, id: u64, code: u32, attributes: UserAttributes, now: i64) -> (r:
        Result<(), ManagerError>)
        requires
            old(self).wf(),
        ensures
            final(self).wf(),
            old(self).unique() ==> final(self).unique(),
            final(self).position(id) == old(self).position(id),
            match old(self).position(id) {
                None => r == Err::<(), ManagerError>(ManagerError::NotFound(id)) && final(self)@
                    == old(self)@,
                Some(p) => {
                    &&& r == Self::wrapped(id, old(self)@[p].activate_result(code, now))
                    &&& r is Ok ==> final(self).changed_at(*old(self), p)
                        && final(self)@[p].activated_from(old(self)@[p], attributes)
                    &&& r is Err ==> final(self)@ == old(self)@
                },
            },
    {
        match self.find(id) {
            None => Err(ManagerError::NotFound(id)),
            Some(p) => {
                match self.accounts[p].activate(code, attributes, now) {
                    Ok(()) => {
                        proof {
                            lemma_index_same_ids(self.accounts@, old(self).accounts@);
                            lemma_has_id_same_ids(self.accounts@, old(self).accounts@, id);
                        }
                        Ok(())
                    },
                    Err(e) => {
                        assert(self.accounts@ == old(self).accounts@);
                        Err(ManagerError::Account(id, e))
                    },
                }
            },
        }
    }

    /// Logs in to the account `id` with `password` at `now`, recording
    /// `token` as the session's token.
    pub fn login_with(&mut self, id: u64, password: &str, token: String, now: i64) -> (r: Result<
        (),
        ManagerError,
    >)
        requires
            old(self).wf(),
        ensures
            final(self).wf(),
            old(self).unique() ==> final(self).unique(),
            match old(self).position(id) {
                None => r == Err::<(), ManagerError>(ManagerError::NotFound(id)) && final(self)@
                    == old(self)@,
                Some(p) => {
                    &&& r == Self::wrapped(id, old(self)@[p].login_result(password@, now))
                    &&& r is Ok ==> final(self).changed_at(*old(self), p)
                        && final(self)@[p].issued_from(old(self)@[p], token@, now)
                    &&& r is Err ==> final(self)@ == old(self)@
                },
            },
    {
        match self.find(id) {
            None => Err(ManagerError::NotFound(id)),
            Some(p) => {
                match self.accounts[p].login_with(password, token, now) {
                    Ok(()) => {
                        proof {
                            lemma_index_same_ids(self.accounts@, old(self).accounts@);
                            if old(self).unique() {
                                lemma_unique_same_ids(old(self).accounts@, self.accounts@);
                            }
                        }
                        Ok(())
                    },
                    Err(e) => {
                        assert(self.accounts@ == old(self).accounts@);
                        Err(ManagerError::Account(id, e))
                    },
                }
            },
        }
    }

    /// Logs in to the account `id` with `password` at `now` and returns a
    /// fresh random token.
    pub fn login(&mut self, id: u64, password: &str, now: i64) -> (r: Result<String, ManagerError>)
        requires
            old(self).wf(),
        ensures
            final(self).wf(),
            old(self).unique() ==> final(self).unique(),
            match old(self).position(id) {
                None => r matches Err(ManagerError::NotFound(x)) && x == id && final(self)@ == old(self)@,
                Some(p) => match r {
                    Ok(token) => {
                        &&& old(self)@[p].login_result(password@, now) is Ok
                        &&& final(self).changed_at(*old(self), p)
                        &&& final(self)@[p].issued_from(old(self)@[p], token@, now)
                    },
                    Err(e) => {
                        &&& Self::wrapped(id, old(self)@[p].login_result(password@, now)) == Err::<
                            (),
                            ManagerError,
                        >(e)
                        &&& final(self)@ == old(self)@
                    },
                },
            },
    {
        match self.find(id) {
            None => Err(ManagerError::NotFound(id)),
            Some(p) => {
                match self.accounts[p].login(password, now) {
                    Ok(token) => {
                        proof {
                            lemma_index_same_ids(self.accounts@, old(self).accounts@);
                            if old(self).unique() {
                                lemma_unique_same_ids(old(self).accounts@, self.accounts@);
                            }
                        }
                        Ok(token)
                    },
                    Err(e) => {
                        assert(self.accounts@ == old(self).accounts@);
                        Err(ManagerError::Account(id, e))
                    },
                }
            },
        }
    }

    /// Revokes `token` of the account `id`.
    pub fn logout(&mut self, id: u64, token: &str) -> (r: Result<(), ManagerError>)
        requires
            old(self).wf(),
        ensures
            final(self).wf(),
            old(self).unique() ==> final(self).unique(),
            match old(self).position(id) {
                None => r == Err::<(), ManagerError>(ManagerError::NotFound(id)) && final(self)@
                    == old(self)@,
                Some(p) => {
                    &&& r == Self::wrapped(id, old(self)@[p].logout_result(token@))
                    &&& r is Ok ==> final(self).changed_at(*old(self), p)
                        && final(self)@[p].same_but_tokens(
                        old(self)@[p],
                        crate::verify::without(old(self)@[p].spec_tokens(), token@),
                    )
                    &&& r is Err ==> final(self)@ == old(self)@
                },
            },
    {
        match self.find(id) {
            None => Err(ManagerError::NotFound(id)),
            Some(p) => {
                match self.accounts[p].logout(token) {
                    Ok(()) => {
                        proof {
                            lemma_index_same_ids(self.accounts@, old(self).accounts@);
                            if old(self).unique() {
                                lemma_unique_same_ids(old(self).accounts@, self.accounts@);
                            }
                        }
                        Ok(())
                    },
                    Err(e) => {
                        assert(self.accounts@ == old(self).accounts@);
                        Err(ManagerError::Account(id, e))
                    },
                }
            },
        }
    }

    /// Installs a pending password reset for the account `id` under a code
    /// drawn at random and returns the code, for the caller to mail.
    pub fn request_password_reset(&mut self, id: u64, now: i64) -> (r: Result<u32, ManagerError>)
        requires
            old(self).wf(),
        ensures
            final(self).wf(),
            old(self).unique() ==> final(self).unique(),
            match old(self).position(id) {
                None => r matches Err(ManagerError::NotFound(x)) && x == id && final(self)@ == old(self)@,
                Some(p) => match r {
                    Ok(code) => {
                        &&& old(self)@[p].request_result(now) is Ok
                        &&& CODE_MIN <= code < CODE_END
                        &&& final(self).changed_at(*old(self), p)
                        &&& final(self)@[p].requested_from(old(self)@[p], code, now)
                    },
                    Err(e) => {
                        &&& Self::wrapped(id, old(self)@[p].request_result(now)) == Err::<
                            (),
                            ManagerError,
                        >(e)
                        &&& final(self)@ == old(self)@
                    },
                },
            },
    {
        match self.find(id) {
            None => Err(ManagerError::NotFound(id)),
            Some(p) => {
                match self.accounts[p].request_password_reset(now) {
                    Ok(code) => {
                        proof {
                            lemma_index_same_ids(self.accounts@, old(self).accounts@);
                            if old(self).unique() {
                                lemma_unique_same_ids(old(self).accounts@, self.accounts@);
                            }
                        }
                        Ok(code)
                    },
                    Err(e) => {
                        assert(self.accounts@ == old(self).accounts@);
                        Err(ManagerError::Account(id, e))
                    },
                }
            },
        }
    }

    /// Replaces the password of the account `id`, for which a reset is
    /// pending under `code`, not expired at `now`.
    pub fn reset_password(&mut self, id: u64, code: u32, new_password: String, now: i64) -> (r:
        Result<(), ManagerError>)
        requires
            old(self).wf(),
        ensures
            final(self).wf(),
            old(self).unique() ==> final(self).unique(),
            match old(self).position(id) {
                None => r == Err::<(), ManagerError>(ManagerError::NotFound(id)) && final(self)@
                    == old(self)@,
                Some(p) => {
                    &&& r == Self::wrapped(id, old(self)@[p].reset_result(code, now))
                    &&& r is Ok ==> final(self).changed_at(*old(self), p)
                        && final(self)@[p].reset_from(old(self)@[p], new_password@)
                    &&& r is Err ==> final(self)@ == old(self)@
                },
            },
    {
        match self.find(id) {
            None => Err(ManagerError::NotFound(id)),
            Some(p) => {
                match self.accounts[p].reset_password(code, new_password, now) {
                    Ok(()) => {
                        proof {
                            lemma_index_same_ids(self.accounts@, old(self).accounts@);
                            if old(self).unique() {
                                lemma_unique_same_ids(old(self).accounts@, self.accounts@);
                            }
                        }
                        Ok(())
                    },
                    Err(e) => {
                        assert(self.accounts@ == old(self).accounts@);
                        Err(ManagerError::Account(id, e))
                    },
                }
            },
        }
    }

    /// The attributes of the account `id` that may be shown.
    pub fn metadata(&self, id: u64) -> (r: Result<UserMetadata, ManagerError>)
        requires
            self.wf(),
        ensures
            match self.position(id) {
                None => r matches Err(ManagerError::NotFound(x)) && x == id,
                Some(p) => match (self@[p], r) {
                    (Account::Unverified(_), Err(ManagerError::Account(x, Error::UserUnverified))) => x
                        == id,
                    (Account::Verified { attributes, .. }, Ok(m)) => m.shows(attributes),
                    _ => false,
                },
            },
    {
        match self.find(id) {
            None => Err(ManagerError::NotFound(id)),
            Some(p) => match self.accounts[p].metadata() {
                Ok(m) => Ok(m),
                Err(e) => Err(ManagerError::Account(id, e)),
            },
        }
    }
}

} // verus!
