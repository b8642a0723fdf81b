//! The ledger collaborator's account store, modeled in memory.
//!
//! The host ledger maps addresses to accounts.  An account is created at
//! most once — `create_account` fails on an address that already holds one,
//! which is the sole arbiter between two racing allocations — and only the
//! owning namespace may rewrite an account's bytes.  Payer balances fund
//! allocations; an allocation a payer cannot fund fails.

use crate::addr::Address;
use crate::bytes::{bytes_eq, dup_bytes, zero_bytes};
use crate::error::LedgerError;
use vstd::prelude::*;

verus! {

/// An allocated account: the namespace that owns it and its fixed-size byte
/// buffer.
pub struct Account {
    pub owner: Address,
    pub data: Vec<u8>,
}

impl Account {
    /// The mathematical model of an account: its owner's bytes and its data
    /// bytes.
    pub open spec fn model(&self) -> (Seq<u8>, Seq<u8>) {
        (self.owner@, self.data@)
    }
}

/// The balance a payer holds under a balance map: zero when absent.
pub open spec fn spec_balance(bal: Map<Seq<u8>, u64>, k: Seq<u8>) -> u64 {
    if bal.contains_key(k) {
        bal[k]
    } else {
        0
    }
}

/// The all-zero buffer of a freshly allocated account of `n` bytes.
pub open spec fn zero_data(n: nat) -> Seq<u8> {
    Seq::new(n, |i: int| 0u8)
}

/// What `create_account` does to an account map and a balance map: fails on
/// an address that already holds an account, fails when the payer cannot
/// fund it, and otherwise installs a zeroed account of the requested size
/// under the requested owner and debits the payer.
pub open spec fn spec_create_account(
    m: Map<Seq<u8>, (Seq<u8>, Seq<u8>)>,
    bal: Map<Seq<u8>, u64>,
    payer: Seq<u8>,
    addr: Seq<u8>,
    size: nat,
    funding: u64,
    owner: Seq<u8>,
) -> Result<(Map<Seq<u8>, (Seq<u8>, Seq<u8>)>, Map<Seq<u8>, u64>), LedgerError> {
    if m.contains_key(addr) {
        Err(LedgerError::AlreadyExists)
    } else if spec_balance(bal, payer) < funding {
        Err(LedgerError::InsufficientFunds)
    } else {
        Ok(
            (
                m.insert(addr, (owner, zero_data(size))),
                bal.insert(payer, (spec_balance(bal, payer) - funding) as u64),
            ),
        )
    }
}

/// What `write_account` does to an account map: only the owning namespace
/// may write, and a write keeps the account's allocated size.
pub open spec fn spec_write_account(
    m: Map<Seq<u8>, (Seq<u8>, Seq<u8>)>,
    namespace: Seq<u8>,
    addr: Seq<u8>,
    data: Seq<u8>,
) -> Result<Map<Seq<u8>, (Seq<u8>, Seq<u8>)>, LedgerError> {
    if !m.contains_key(addr) {
        Err(LedgerError::NotFound)
    } else if m[addr].0 != namespace {
        Err(LedgerError::NotOwner)
    } else if m[addr].1.len() != data.len() {
        Err(LedgerError::SizeMismatch)
    } else {
        Ok(m.insert(addr, (namespace, data)))
    }
}

/// Write-once: an address that already holds an account can never be
/// allocated again; a later `create_account` at it fails with
/// `AlreadyExists`, whoever pays and whatever the requested size or owner.
pub proof fn lemma_write_once(
    m: Map<Seq<u8>, (Seq<u8>, Seq<u8>)>,
    bal: Map<Seq<u8>, u64>,
    payer: Seq<u8>,
    addr: Seq<u8>,
    size: nat,
    funding: u64,
    owner: Seq<u8>,
)
    requires
        m.contains_key(addr),
    ensures
        spec_create_account(m, bal, payer, addr, size, funding, owner) == Err::<
            (Map<Seq<u8>, (Seq<u8>, Seq<u8>)>, Map<Seq<u8>, u64>),
            LedgerError,
        >(LedgerError::AlreadyExists),
{
}

/// Index `i` of the account list holds key `k`.
pub open spec fn acct_key_at(s: Seq<(Address, Account)>, k: Seq<u8>, i: int) -> bool {
    0 <= i < s.len() && s[i].0@ == k
}

/// Index `i` of the balance list holds key `k`.
pub open spec fn bal_key_at(s: Seq<(Address, u64)>, k: Seq<u8>, i: int) -> bool {
    0 <= i < s.len() && s[i].0@ == k
}

/// The in-memory model of the host ledger.
pub struct Ledger {
    accounts: Vec<(Address, Account)>,
    balances: Vec<(Address, u64)>,
}

impl Ledger {
    /// The account map this ledger holds.
    pub closed spec fn accounts_map(&self) -> Map<Seq<u8>, (Seq<u8>, Seq<u8>)> {
        Map::new(
            |k: Seq<u8>| exists|i: int| acct_key_at(self.accounts@, k, i),
            |k: Seq<u8>|
                {
                    let i = choose|i: int| acct_key_at(self.accounts@, k, i);
                    self.accounts@[i].1.model()
                },
        )
    }

    /// The balance map this ledger holds.
    pub closed spec fn balances_map(&self) -> Map<Seq<u8>, u64> {
        Map::new(
            |k: Seq<u8>| exists|i: int| bal_key_at(self.balances@, k, i),
            |k: Seq<u8>|
                {
                    let i = choose|i: int| bal_key_at(self.balances@, k, i);
                    self.balances@[i].1
                },
        )
    }

    /// The balance a payer holds: zero when it was never credited.
    pub open spec fn balance_of(&self, k: Seq<u8>) -> u64 {
        spec_balance(self.balances_map(), k)
    }

    /// Each address appears at most once in either list.
    pub closed spec fn wf(&self) -> bool {
        &&& forall|i: int, j: int|
            0 <= i < j < self.accounts@.len() ==> self.accounts@[i].0@ != self.accounts@[j].0@
        &&& forall|i: int, j: int|
            0 <= i < j < self.balances@.len() ==> self.balances@[i].0@ != self.balances@[j].0@
    }

    /// An empty ledger: no accounts, no balances.
    pub fn new() -> (r: Ledger)
        ensures
            r.wf(),
            r.accounts_map() == Map::<Seq<u8>, (Seq<u8>, Seq<u8>)>::empty(),
            r.balances_map() == Map::<Seq<u8>, u64>::empty(),
    {
        let r = Ledger { accounts: Vec::new(), balances: Vec::new() };
        proof {
            assert(r.accounts_map() =~= Map::<Seq<u8>, (Seq<u8>, Seq<u8>)>::empty());
            assert(r.balances_map() =~= Map::<Seq<u8>, u64>::empty());
        }
        r
    }

    /// Finds the position of `addr` in the account list.
    fn find_account(&self, addr: &Address) -> (r: Option<usize>)
        requires
            self.wf(),
        ensures
            (match r {
                Some(i) => acct_key_at(self.accounts@, addr@, i as int)
                    && self.accounts_map().contains_key(addr@) && self.accounts_map()[addr@]
                    == self.accounts@[i as int].1.model(),
                None => !self.accounts_map().contains_key(addr@),
            }),
    {
        let n = self.accounts.len();
        let mut i: usize = 0;
        while i < n
            invariant
                self.wf(),
                n == self.accounts@.len(),
                i <= n,
                forall|j: int| 0 <= j < i ==> self.accounts@[j].0@ != addr@,
            decreases n - i,
        {
            if bytes_eq(&self.accounts[i].0.bytes, &addr.bytes) {
                proof {
                    assert(acct_key_at(self.accounts@, addr@, i as int));
                    let w = choose|w: int| acct_key_at(self.accounts@, addr@, w);
                    assert(w == i as int);
                }
                return Some(i);
            }
            i += 1;
        }
        proof {
            assert forall|j: int| !acct_key_at(self.accounts@, addr@, j) by {}
        }
        None
    }

    /// Finds the position of `who` in the balance list.
    fn find_balance(&self, who: &Address) -> (r: Option<usize>)
        requires
            self.wf(),
        ensures
            (match r {
                Some(i) => bal_key_at(self.balances@, who@, i as int)
                    && self.balances_map().contains_key(who@) && self.balances_map()[who@]
                    == self.balances@[i as int].1,
                None => !self.balances_map().contains_key(who@),
            }),
    {
        let n = self.balances.len();
        let mut i: usize = 0;
        while i < n
            invariant
                self.wf(),
                n == self.balances@.len(),
                i <= n,
                forall|j: int| 0 <= j < i ==> self.balances@[j].0@ != who@,
            decreases n - i,
        {
            if bytes_eq(&self.balances[i].0.bytes, &who.bytes) {
                proof {
                    assert(bal_key_at(self.balances@, who@, i as int));
                    let w = choose|w: int| bal_key_at(self.balances@, who@, w);
                    assert(w == i as int);
                }
                return Some(i);
            }
            i += 1;
        }
        proof {
            assert forall|j: int| !bal_key_at(self.balances@, who@, j) by {}
        }
        None
    }

    /// Returns whether an account is allocated at `addr`.
    pub fn contains_account(&self, addr: &Address) -> (r: bool)
        requires
            self.wf(),
        ensures
            r == self.accounts_map().contains_key(addr@),
    {
        self.find_account(addr).is_some()
    }

    /// Returns the balance `who` holds.
    pub fn balance(&self, who: &Address) -> (r: u64)
        requires
            self.wf(),
        ensures
            r == self.balance_of(who@),
    {
        match self.find_balance(who) {
            Some(i) => self.balances[i].1,
            None => 0,
        }
    }

    /// Sets `who`'s balance to exactly `v`.
    fn set_balance(&mut self, who: &Address, v: u64)
        requires
            old(self).wf(),
        ensures
            final(self).wf(),
            final(self).balances_map() == old(self).balances_map().insert(who@, v),
            final(self).accounts == old(self).accounts,
    {
        let found = self.find_balance(who);
        match found {
            Some(i) => {
                let ghost s0 = self.balances@;
                let (k, _) = self.balances.remove(i);
                self.balances.insert(i, (k, v));
                proof {
                    assert(self.balances@ =~= s0.update(i as int, (s0[i as int].0, v)));
                    assert forall|a: int, b: int|
                        0 <= a < b < self.balances@.len() implies self.balances@[a].0@
                        != self.balances@[b].0@ by {
                        assert(s0[a].0@ != s0[b].0@);
                    }
                    assert(self.balances_map() =~= old(self).balances_map().insert(who@, v)) by {
                        self.lemma_balance_update(*old(self), i as int, who@, v);
                    }
                }
            },
            None => {
                let ghost s0 = self.balances@;
                self.balances.push((who.dup(), v));
                proof {
                    assert forall|a: int, b: int|
                        0 <= a < b < self.balances@.len() implies self.balances@[a].0@
                        != self.balances@[b].0@ by {
                        if b < s0.len() {
                            assert(s0[a].0@ != s0[b].0@);
                        } else {
                            assert(!bal_key_at(s0, who@, a));
                        }
                    }
                    assert(self.balances_map() =~= old(self).balances_map().insert(who@, v)) by {
                        self.lemma_balance_push(*old(self), who@, v);
                    }
                }
            },
        }
    }

    /// After replacing the balance at a position that holds `who`, the
    /// balance map is the old one with `who` re-bound.
    proof fn lemma_balance_update(self, pre: Ledger, i: int, who: Seq<u8>, v: u64)
        requires
            pre.wf(),
            bal_key_at(pre.balances@, who, i),
            self.balances@ == pre.balances@.update(i, (pre.balances@[i].0, v)),
        ensures
            self.balances_map() =~= pre.balances_map().insert(who, v),
    {
        let m1 = self.balances_map();
        let m2 = pre.balances_map().insert(who, v);
        let s1 = self.balances@;
        let s0 = pre.balances@;
        assert(s1[i].0@ == who);
        assert(forall|j: int| 0 <= j < s0.len() && j != i ==> s1[j] == s0[j]);
        assert forall|k: Seq<u8>| #[trigger] m1.contains_key(k) implies m2.contains_key(k) by {
            let j = choose|j: int| bal_key_at(s1, k, j);
            if j == i {
                assert(k == who);
            } else {
                assert(bal_key_at(s0, k, j));
            }
        }
        assert forall|k: Seq<u8>| #[trigger] m2.contains_key(k) implies m1.contains_key(k) by {
            if k == who {
                assert(bal_key_at(s1, who, i));
            } else {
                let j = choose|j: int| bal_key_at(s0, k, j);
                assert(j != i);
                assert(bal_key_at(s1, k, j));
            }
        }
        assert forall|k: Seq<u8>| #[trigger] m1.contains_key(k) implies m1[k] == m2[k] by {
            let j = choose|j: int| bal_key_at(s1, k, j);
            if k == who {
                if j != i {
                    assert(bal_key_at(s0, k, j));
                    assert(s0[j].0@ != s0[i].0@);
                }
                assert(j == i);
                assert(m1[k] == v);
            } else {
                assert(j != i);
                assert(bal_key_at(s0, k, j));
                let j2 = choose|j2: int| bal_key_at(s0, k, j2);
                if j2 != j {
                    assert(s0[j].0@ != s0[j2].0@);
                }
                assert(j2 == j);
                assert(m2[k] == s0[j].1);
                assert(m1[k] == s1[j].1);
            }
        }
        assert(m1.dom() =~= m2.dom());
        assert(m1 =~= m2);
    }

    /// After appending a balance for a `who` the list did not hold, the
    /// balance map is the old one with `who` bound.
    proof fn lemma_balance_push(self, pre: Ledger, who: Seq<u8>, v: u64)
        requires
            pre.wf(),
            !pre.balances_map().contains_key(who),
            self.balances@.len() == pre.balances@.len() + 1,
            forall|j: int| 0 <= j < pre.balances@.len() ==> self.balances@[j] == pre.balances@[j],
            self.balances@.last().0@ == who,
            self.balances@.last().1 == v,
        ensures
            self.balances_map() =~= pre.balances_map().insert(who, v),
    {
        let m1 = self.balances_map();
        let m2 = pre.balances_map().insert(who, v);
        let s1 = self.balances@;
        let s0 = pre.balances@;
        let n = s0.len() as int;
        assert(bal_key_at(s1, who, n));
        assert forall|k: Seq<u8>| #[trigger] m1.contains_key(k) implies m2.contains_key(k) by {
            let j = choose|j: int| bal_key_at(s1, k, j);
            if j < n {
                assert(bal_key_at(s0, k, j));
            } else {
                assert(k == who);
            }
        }
        assert forall|k: Seq<u8>| #[trigger] m2.contains_key(k) implies m1.contains_key(k) by {
            if k == who {
                assert(bal_key_at(s1, who, n));
            } else {
                let j = choose|j: int| bal_key_at(s0, k, j);
                assert(bal_key_at(s1, k, j));
            }
        }
        assert forall|k: Seq<u8>| #[trigger] m1.contains_key(k) implies m1[k] == m2[k] by {
            let j = choose|j: int| bal_key_at(s1, k, j);
            if k == who {
                if j < n {
                    assert(bal_key_at(s0, who, j));
                }
                assert(j == n);
                assert(m1[k] == v);
            } else {
                assert(j < n);
                assert(bal_key_at(s0, k, j));
                let j2 = choose|j2: int| bal_key_at(s0, k, j2);
                if j2 != j {
                    assert(s0[j].0@ != s0[j2].0@);
                }
                assert(j2 == j);
                assert(m2[k] == s0[j].1);
                assert(m1[k] == s1[j].1);
            }
        }
        assert(m1.dom() =~= m2.dom());
        assert(m1 =~= m2);
    }

    /// Credits `who` with `amount`, creating the balance entry if it never
    /// existed.  Accounts are untouched.
    pub fn credit(&mut self, who: &Address, amount: u64)
        requires
            old(self).wf(),
            old(self).balance_of(who@) + amount <= u64::MAX,
        ensures
            final(self).wf(),
            final(self).balances_map() == old(self).balances_map().insert(
                who@,
                (old(self).balance_of(who@) + amount) as u64,
            ),
            final(self).accounts_map() == old(self).accounts_map(),
    {
        let current = self.balance(who);
        self.set_balance(who, current + amount);
        proof {
            assert(final(self).accounts_map() =~= old(self).accounts_map());
        }
    }

    /// After appending an account under an address the list did not hold,
    /// the account map is the old one with that address bound.
    proof fn lemma_account_push(self, pre: Ledger, addr: Seq<u8>, v: (Seq<u8>, Seq<u8>))
        requires
            pre.wf(),
            !pre.accounts_map().contains_key(addr),
            self.accounts@.len() == pre.accounts@.len() + 1,
            forall|j: int| 0 <= j < pre.accounts@.len() ==> self.accounts@[j] == pre.accounts@[j],
            self.accounts@.last().0@ == addr,
            self.accounts@.last().1.model() == v,
        ensures
            self.accounts_map() =~= pre.accounts_map().insert(addr, v),
    {
        let m1 = self.accounts_map();
        let m2 = pre.accounts_map().insert(addr, v);
        let s1 = self.accounts@;
        let s0 = pre.accounts@;
        let n = s0.len() as int;
        assert(acct_key_at(s1, addr, n));
        assert forall|k: Seq<u8>| #[trigger] m1.contains_key(k) implies m2.contains_key(k) by {
            let j = choose|j: int| acct_key_at(s1, k, j);
            if j < n {
                assert(acct_key_at(s0, k, j));
            } else {
                assert(k == addr);
            }
        }
        assert forall|k: Seq<u8>| #[trigger] m2.contains_key(k) implies m1.contains_key(k) by {
            if k == addr {
                assert(acct_key_at(s1, addr, n));
            } else {
                let j = choose|j: int| acct_key_at(s0, k, j);
                assert(acct_key_at(s1, k, j));
            }
        }
        assert forall|k: Seq<u8>| #[trigger] m1.contains_key(k) implies m1[k] == m2[k] by {
            let j = choose|j: int| acct_key_at(s1, k, j);
            if k == addr {
                if j < n {
                    assert(acct_key_at(s0, addr, j));
                }
                assert(j == n);
                assert(m1[k] == v);
            } else {
                assert(j < n);
                assert(acct_key_at(s0, k, j));
                let j2 = choose|j2: int| acct_key_at(s0, k, j2);
                if j2 != j {
                    assert(s0[j].0@ != s0[j2].0@);
                }
                assert(j2 == j);
                assert(m2[k] == s0[j].1.model());
                assert(m1[k] == s1[j].1.model());
            }
        }
        assert(m1.dom() =~= m2.dom());
        assert(m1 =~= m2);
    }

    /// After replacing the account at a position that holds `addr`, the
    /// account map is the old one with `addr` re-bound.
    proof fn lemma_account_update(self, pre: Ledger, i: int, addr: Seq<u8>, v: (Seq<u8>, Seq<u8>))
        requires
            pre.wf(),
            acct_key_at(pre.accounts@, addr, i),
            self.accounts@.len() == pre.accounts@.len(),
            self.accounts@ == pre.accounts@.update(i, self.accounts@[i]),
            self.accounts@[i].0@ == addr,
            self.accounts@[i].1.model() == v,
        ensures
            self.accounts_map() =~= pre.accounts_map().insert(addr, v),
    {
        let m1 = self.accounts_map();
        let m2 = pre.accounts_map().insert(addr, v);
        let s1 = self.accounts@;
        let s0 = pre.accounts@;
        assert(s1[i].0@ == addr);
        assert(forall|j: int| 0 <= j < s0.len() && j != i ==> s1[j] == s0[j]);
        assert forall|k: Seq<u8>| #[trigger] m1.contains_key(k) implies m2.contains_key(k) by {
            let j = choose|j: int| acct_key_at(s1, k, j);
            if j == i {
                assert(k == addr);
            } else {
                assert(acct_key_at(s0, k, j));
            }
        }
        assert forall|k: Seq<u8>| #[trigger] m2.contains_key(k) implies m1.contains_key(k) by {
            if k == addr {
                assert(acct_key_at(s1, addr, i));
            } else {
                let j = choose|j: int| acct_key_at(s0, k, j);
                assert(j != i);
                assert(acct_key_at(s1, k, j));
            }
        }
        assert forall|k: Seq<u8>| #[trigger] m1.contains_key(k) implies m1[k] == m2[k] by {
            let j = choose|j: int| acct_key_at(s1, k, j);
            if k == addr {
                if j != i {
                    assert(acct_key_at(s0, k, j));
                    assert(s0[j].0@ != s0[i].0@);
                }
                assert(j == i);
                assert(m1[k] == v);
            } else {
                assert(j != i);
                assert(acct_key_at(s0, k, j));
                let j2 = choose|j2: int| acct_key_at(s0, k, j2);
                if j2 != j {
                    assert(s0[j].0@ != s0[j2].0@);
                }
                assert(j2 == j);
                assert(m2[k] == s0[j].1.model());
                assert(m1[k] == s1[j].1.model());
            }
        }
        assert(m1.dom() =~= m2.dom());
        assert(m1 =~= m2);
    }

    /// Allocates a zeroed account of `size` bytes at `addr`, owned by
    /// `owner` and funded by `payer`.  Fails — leaving the ledger exactly as
    /// it was — if an account already lives at `addr` (first allocator wins,
    /// forever) or if `payer` cannot fund it.
    pub fn create_account(
        &mut self,
        payer: &Address,
        addr: &Address,
        size: usize,
        funding: u64,
        owner: &Address,
    ) -> (r: Result<(), LedgerError>)
        requires
            old(self).wf(),
        ensures
            final(self).wf(),
            (match spec_create_account(
                old(self).accounts_map(),
                old(self).balances_map(),
                payer@,
                addr@,
                size as nat,
                funding,
                owner@,
            ) {
                Ok(p) => r == Ok::<(), LedgerError>(()) && final(self).accounts_map() == p.0
                    && final(self).balances_map() == p.1,
                Err(e) => r == Err::<(), LedgerError>(e) && final(self).accounts_map() == old(
                    self,
                ).accounts_map() && final(self).balances_map() == old(self).balances_map(),
            }),
    {
        if self.contains_account(addr) {
            return Err(LedgerError::AlreadyExists);
        }
        let bal = self.balance(payer);
        if bal < funding {
            return Err(LedgerError::InsufficientFunds);
        }
        self.set_balance(payer, bal - funding);
        let ghost mid = *self;
        self.accounts.push((addr.dup(), Account { owner: owner.dup(), data: zero_bytes(size) }));
        proof {
            let s0 = mid.accounts@;
            assert forall|a: int, b: int|
                0 <= a < b < self.accounts@.len() implies self.accounts@[a].0@
                != self.accounts@[b].0@ by {
                if b < s0.len() {
                    assert(s0[a].0@ != s0[b].0@);
                } else {
                    assert(!acct_key_at(s0, addr@, a));
                }
            }
            assert(mid.accounts_map() =~= old(self).accounts_map());
            assert(self.accounts@ =~= s0.push(self.accounts@.last()));
            assert(self.accounts@.last().1.model() == (owner@, zero_data(size as nat)));
            self.lemma_account_push(mid, addr@, (owner@, zero_data(size as nat)));
            assert(self.balances_map() == mid.balances_map());
        }
        Ok(())
    }

    /// Returns the owner of the account at `addr`, if one is allocated.
    pub fn owner_of(&self, addr: &Address) -> (r: Option<Vec<u8>>)
        requires
            self.wf(),
        ensures
            (match r {
                Some(o) => self.accounts_map().contains_key(addr@) && o@
                    == self.accounts_map()[addr@].0,
                None => !self.accounts_map().contains_key(addr@),
            }),
    {
        match self.find_account(addr) {
            Some(i) => Some(dup_bytes(&self.accounts[i].1.owner.bytes)),
            None => None,
        }
    }

    /// Reads the bytes an account holds.  Reading is not owner-gated.
    pub fn read_account(&self, addr: &Address) -> (r: Result<Vec<u8>, LedgerError>)
        requires
            self.wf(),
        ensures
            (match r {
                Ok(d) => self.accounts_map().contains_key(addr@) && d@ == self.accounts_map()[addr@].1,
                Err(e) => e == LedgerError::NotFound && !self.accounts_map().contains_key(addr@),
            }),
    {
        match self.find_account(addr) {
            Some(i) => Ok(dup_bytes(&self.accounts[i].1.data)),
            None => Err(LedgerError::NotFound),
        }
    }

    /// Rewrites the bytes of the account at `addr`.  Only the owning
    /// namespace may write, and the write keeps the account's size.  On
    /// failure the ledger is left exactly as it was.
    pub fn write_account(&mut self, namespace: &Address, addr: &Address, data: Vec<u8>) -> (r:
        Result<(), LedgerError>)
        requires
            old(self).wf(),
        ensures
            final(self).wf(),
            final(self).balances_map() == old(self).balances_map(),
            (match spec_write_account(old(self).accounts_map(), namespace@, addr@, data@) {
                Ok(m2) => r == Ok::<(), LedgerError>(()) && final(self).accounts_map() == m2,
                Err(e) => r == Err::<(), LedgerError>(e) && final(self).accounts_map() == old(
                    self,
                ).accounts_map(),
            }),
    {
        let found = self.find_account(addr);
        match found {
            Some(i) => {
                if !bytes_eq(&self.accounts[i].1.owner.bytes, &namespace.bytes) {
                    return Err(LedgerError::NotOwner);
                }
                if self.accounts[i].1.data.len() != data.len() {
                    return Err(LedgerError::SizeMismatch);
                }
                let ghost s0 = self.accounts@;
                let (k, a0) = self.accounts.remove(i);
                let owner = a0.owner;
                self.accounts.insert(i, (k, Account { owner, data }));
                proof {
                    assert(self.accounts@ =~= s0.update(i as int, self.accounts@[i as int]));
                    assert forall|a: int, b: int|
                        0 <= a < b < self.accounts@.len() implies self.accounts@[a].0@
                        != self.accounts@[b].0@ by {
                        assert(s0[a].0@ != s0[b].0@);
                    }
                    assert(self.accounts@[i as int].1.model() == (namespace@, data@));
                    self.lemma_account_update(*old(self), i as int, addr@, (namespace@, data@));
                    assert(self.balances_map() == old(self).balances_map());
                }
                Ok(())
            },
            None => Err(LedgerError::NotFound),
        }
    }
}

} // verus!
