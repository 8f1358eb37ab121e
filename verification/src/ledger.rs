use vstd::prelude::*;

verus! {

/// The errors the ledger service reports.  A failed call leaves every
/// balance as it was.
#[derive(Clone, Copy, Debug, PartialEq, Eq, Structural)]
pub enum LedgerError {
    /// A named balance does not exist.
    UnknownAccount,
    /// The source balance cannot cover the amount.
    InsufficientFunds,
    /// The destination balance cannot hold the amount.
    BalanceOverflow,
}

/// One named balance.
#[derive(Clone, Copy, Debug, PartialEq, Eq, Structural)]
pub struct LedgerEntry {
    pub id: u64,
    pub balance: u64,
}

/// The reference model of the external ledger service the engine settles
/// against: named balances, with atomic transfer, mint and burn.  Every
/// operation's contract pins the new balances exactly and states what it
/// does to the ledger's total, so conservation arguments reduce to which
/// operations a settlement uses.
#[derive(Debug)]
pub struct Ledger {
    pub entries: Vec<LedgerEntry>,
}

/// Balance names are unique.
pub open spec fn accounts_unique(s: Seq<LedgerEntry>) -> bool {
    forall|i: int, j: int| 0 <= i < j < s.len() ==> s[i].id != s[j].id
}

/// Whether the ledger holds a balance under `id`.
pub open spec fn has_account(s: Seq<LedgerEntry>, id: u64) -> bool {
    exists|i: int| 0 <= i < s.len() && s[i].id == id
}

/// The balance held under `id`, zero when the name is unknown.
pub open spec fn balance_of(s: Seq<LedgerEntry>, id: u64) -> u64 {
    if has_account(s, id) {
        s[choose|i: int| 0 <= i < s.len() && s[i].id == id].balance
    } else {
        0
    }
}

/// The sum of all balances: what conservation is about.
pub open spec fn total(s: Seq<LedgerEntry>) -> int
    decreases s.len(),
{
    if s.len() == 0 {
        0
    } else {
        total(s.drop_last()) + s.last().balance
    }
}

/// A unique name names at most one balance.
pub proof fn lemma_account_unique(s: Seq<LedgerEntry>, i: int, j: int)
    requires
        accounts_unique(s),
        0 <= i < s.len(),
        0 <= j < s.len(),
        s[i].id == s[j].id,
    ensures
        i == j,
{
}

/// The pointwise view agrees with the stored entry.
pub proof fn lemma_balance_at(s: Seq<LedgerEntry>, k: int)
    requires
        accounts_unique(s),
        0 <= k < s.len(),
    ensures
        has_account(s, s[k].id),
        balance_of(s, s[k].id) == s[k].balance,
{
    assert(0 <= k < s.len() && s[k].id == s[k].id);
    let i = choose|i: int| 0 <= i < s.len() && s[i].id == s[k].id;
    lemma_account_unique(s, i, k);
}

/// Replacing one entry's balance changes the view at its name alone, and
/// moves the total by the difference.
pub proof fn lemma_balance_update(s: Seq<LedgerEntry>, k: int, v: LedgerEntry)
    requires
        accounts_unique(s),
        0 <= k < s.len(),
        v.id == s[k].id,
    ensures
        accounts_unique(s.update(k, v)),
        has_account(s.update(k, v), v.id),
        balance_of(s.update(k, v), v.id) == v.balance,
        forall|id: u64|
            id != v.id ==> #[trigger] balance_of(s.update(k, v), id) == balance_of(s, id) && (
            has_account(s.update(k, v), id) <==> has_account(s, id)),
        total(s.update(k, v)) == total(s) - s[k].balance + v.balance,
    decreases s.len(),
{
    let s2 = s.update(k, v);
    assert(forall|i: int| 0 <= i < s.len() ==> s2[i].id == if i == k {
        v.id
    } else {
        s[i].id
    });
    lemma_balance_at(s2, k);
    assert forall|id: u64| id != v.id implies #[trigger] balance_of(s2, id) == balance_of(s, id)
        && (has_account(s2, id) <==> has_account(s, id)) by {
        if has_account(s2, id) {
            let i = choose|i: int| 0 <= i < s2.len() && s2[i].id == id;
            assert(0 <= i < s.len() && s[i].id == id);
        }
        if has_account(s, id) {
            let i = choose|i: int| 0 <= i < s.len() && s[i].id == id;
            assert(i != k);
            assert(0 <= i < s2.len() && s2[i].id == id);
            let i2 = choose|i: int| 0 <= i < s2.len() && s2[i].id == id;
            lemma_account_unique(s2, i, i2);
        }
    }
    if k == s.len() - 1 {
        assert(s2.drop_last() =~= s.drop_last());
    } else {
        assert(s2.drop_last() =~= s.drop_last().update(k, v));
        assert(forall|i: int, j: int|
            0 <= i < j < s.drop_last().len() ==> s.drop_last()[i].id != s.drop_last()[j].id);
        lemma_balance_update(s.drop_last(), k, v);
        assert(s2.last() == s.last());
    }
}

/// A balance appended under a fresh name appears in the view at that name
/// alone, and raises the total by its balance.
pub proof fn lemma_balance_push(s: Seq<LedgerEntry>, v: LedgerEntry)
    requires
        accounts_unique(s),
        !has_account(s, v.id),
    ensures
        accounts_unique(s.push(v)),
        has_account(s.push(v), v.id),
        balance_of(s.push(v), v.id) == v.balance,
        forall|id: u64|
            id != v.id ==> #[trigger] balance_of(s.push(v), id) == balance_of(s, id) && (
            has_account(s.push(v), id) <==> has_account(s, id)),
        total(s.push(v)) == total(s) + v.balance,
{
    let s2 = s.push(v);
    assert(s2[s.len() as int] == v);
    assert forall|i: int, j: int| 0 <= i < j < s2.len() implies s2[i].id != s2[j].id by {
        if j == s.len() {
            assert(s2[i] == s[i]);
            if s[i].id == v.id {
                assert(has_account(s, v.id));
            }
        }
    }
    lemma_balance_at(s2, s.len() as int);
    assert forall|id: u64| id != v.id implies #[trigger] balance_of(s2, id) == balance_of(s, id)
        && (has_account(s2, id) <==> has_account(s, id)) by {
        if has_account(s2, id) {
            let i = choose|i: int| 0 <= i < s2.len() && s2[i].id == id;
            assert(i != s.len());
            assert(0 <= i < s.len() && s[i].id == id);
        }
        if has_account(s, id) {
            let i = choose|i: int| 0 <= i < s.len() && s[i].id == id;
            assert(0 <= i < s2.len() && s2[i].id == id);
            let i2 = choose|i: int| 0 <= i < s2.len() && s2[i].id == id;
            lemma_account_unique(s2, i, i2);
        }
    }
    assert(s2.drop_last() =~= s);
}

impl Ledger {
    /// A consistent ledger: one balance per name.
    pub open spec fn wf(self) -> bool {
        accounts_unique(self.entries@)
    }

    /// An empty ledger.
    pub fn new() -> (r: Ledger)
        ensures
            r.wf(),
            r.entries@.len() == 0,
    {
        Ledger { entries: Vec::new() }
    }

    /// The place of the balance named `id`, if any.
    fn find_account(&self, id: u64) -> (r: Option<usize>)
        ensures
            match r {
                Some(k) => k < self.entries@.len() && self.entries@[k as int].id == id,
                None => !has_account(self.entries@, id),
            },
    {
        let n = self.entries.len();
        let mut i: usize = 0;
        while i < n
            invariant
                i <= n == self.entries@.len(),
                forall|j: int| 0 <= j < i ==> self.entries@[j].id != id,
            decreases n - i,
        {
            if self.entries[i].id == id {
                return Some(i);
            }
            i = i + 1;
        }
        None
    }

    /// The balance held under `id`, zero when the name is unknown.
    pub fn balance(&self, id: u64) -> (r: u64)
        requires
            self.wf(),
        ensures
            r == balance_of(self.entries@, id),
    {
        match self.find_account(id) {
            Some(k) => {
                proof {
                    lemma_balance_at(self.entries@, k as int);
                }
                self.entries[k].balance
            },
            None => 0,
        }
    }

    /// Creates new value under `id`, opening the balance on first use.
    /// Fails only when the balance cannot hold the amount; on success the
    /// ledger's total rises by exactly `amount`.
    pub fn mint(&mut self, id: u64, amount: u64) -> (r: Result<(), LedgerError>)
        requires
            old(self).wf(),
        ensures
            final(self).wf(),
            r is Ok <==> balance_of(old(self).entries@, id) + amount <= u64::MAX,
            r is Err ==> *final(self) == *old(self) && r->Err_0 == LedgerError::BalanceOverflow,
            r is Ok ==> balance_of(final(self).entries@, id) == balance_of(old(self).entries@, id)
                + amount,
            r is Ok ==> forall|i: u64|
                i != id ==> #[trigger] balance_of(final(self).entries@, i) == balance_of(
                    old(self).entries@,
                    i,
                ),
            r is Ok ==> total(final(self).entries@) == total(old(self).entries@) + amount,
            has_account(final(self).entries@, id) || r is Err,
    {
        match self.find_account(id) {
            Some(k) => {
                proof {
                    lemma_balance_at(self.entries@, k as int);
                }
                let e = self.entries[k];
                match e.balance.checked_add(amount) {
                    Some(nb) => {
                        let ghost s0 = self.entries@;
                        self.entries[k] = LedgerEntry { id, balance: nb };
                        proof {
                            lemma_balance_update(s0, k as int, LedgerEntry { id, balance: nb });
                        }
                        Ok(())
                    },
                    None => Err(LedgerError::BalanceOverflow),
                }
            },
            None => {
                let ghost s0 = self.entries@;
                self.entries.push(LedgerEntry { id, balance: amount });
                proof {
                    lemma_balance_push(s0, LedgerEntry { id, balance: amount });
                }
                Ok(())
            },
        }
    }

    /// Destroys value under `id`.  Fails when the balance is unknown or
    /// cannot cover the amount; on success the total falls by `amount`.
    pub fn burn(&mut self, id: u64, amount: u64) -> (r: Result<(), LedgerError>)
        requires
            old(self).wf(),
        ensures
            final(self).wf(),
            r is Ok <==> has_account(old(self).entries@, id) && amount <= balance_of(
                old(self).entries@,
                id,
            ),
            r is Err ==> *final(self) == *old(self),
            r is Err ==> r->Err_0 == (if !has_account(old(self).entries@, id) {
                LedgerError::UnknownAccount
            } else {
                LedgerError::InsufficientFunds
            }),
            r is Ok ==> balance_of(final(self).entries@, id) == balance_of(old(self).entries@, id)
                - amount,
            r is Ok ==> forall|i: u64|
                i != id ==> #[trigger] balance_of(final(self).entries@, i) == balance_of(
                    old(self).entries@,
                    i,
                ),
            r is Ok ==> total(final(self).entries@) == total(old(self).entries@) - amount,
    {
        match self.find_account(id) {
            Some(k) => {
                proof {
                    lemma_balance_at(self.entries@, k as int);
                }
                let e = self.entries[k];
                if amount > e.balance {
                    return Err(LedgerError::InsufficientFunds);
                }
                let ghost s0 = self.entries@;
                self.entries[k] = LedgerEntry { id, balance: e.balance - amount };
                proof {
                    lemma_balance_update(
                        s0,
                        k as int,
                        LedgerEntry { id, balance: (e.balance - amount) as u64 },
                    );
                }
                Ok(())
            },
            None => Err(LedgerError::UnknownAccount),
        }
    }

    /// Moves `amount` from one named balance to another, atomically: both
    /// balances change or neither does, and the ledger's total never
    /// changes.  This is the conservation law settlements rely on: an
    /// operation settled by transfers alone cannot create or destroy
    /// value.
    pub fn transfer(&mut self, from: u64, to: u64, amount: u64) -> (r: Result<(), LedgerError>)
        requires
            old(self).wf(),
        ensures
            final(self).wf(),
            r is Ok <==> has_account(old(self).entries@, from) && has_account(
                old(self).entries@,
                to,
            ) && amount <= balance_of(old(self).entries@, from) && (from == to || balance_of(
                old(self).entries@,
                to,
            ) + amount <= u64::MAX),
            r is Err ==> *final(self) == *old(self),
            r is Ok && from != to ==> balance_of(final(self).entries@, from) == balance_of(
                old(self).entries@,
                from,
            ) - amount && balance_of(final(self).entries@, to) == balance_of(
                old(self).entries@,
                to,
            ) + amount,
            r is Ok && from == to ==> *final(self) == *old(self),
            r is Ok ==> forall|i: u64|
                i != from && i != to ==> #[trigger] balance_of(final(self).entries@, i)
                    == balance_of(old(self).entries@, i),
            total(final(self).entries@) == total(old(self).entries@),
            forall|i: u64|
                #[trigger] has_account(final(self).entries@, i) <==> has_account(
                    old(self).entries@,
                    i,
                ),
    {
        let kf = match self.find_account(from) {
            Some(k) => k,
            None => {
                return Err(LedgerError::UnknownAccount);
            },
        };
        let kt = match self.find_account(to) {
            Some(k) => k,
            None => {
                return Err(LedgerError::UnknownAccount);
            },
        };
        proof {
            lemma_balance_at(self.entries@, kf as int);
            lemma_balance_at(self.entries@, kt as int);
        }
        let ef = self.entries[kf];
        let et = self.entries[kt];
        if amount > ef.balance {
            return Err(LedgerError::InsufficientFunds);
        }
        if from == to {
            return Ok(());
        }
        let nb_to = match et.balance.checked_add(amount) {
            Some(v) => v,
            None => {
                return Err(LedgerError::BalanceOverflow);
            },
        };
        let ghost s0 = self.entries@;
        self.entries[kf] = LedgerEntry { id: from, balance: ef.balance - amount };
        proof {
            lemma_balance_update(
                s0,
                kf as int,
                LedgerEntry { id: from, balance: (ef.balance - amount) as u64 },
            );
        }
        let ghost s1 = self.entries@;
        self.entries[kt] = LedgerEntry { id: to, balance: nb_to };
        proof {
            assert(s1[kt as int] == s0[kt as int]);
            lemma_balance_update(s1, kt as int, LedgerEntry { id: to, balance: nb_to });
            assert forall|i: u64| (#[trigger] has_account(self.entries@, i) <==> has_account(
                s0,
                i,
            )) by {
                if i == from {
                    assert(has_account(s1, from));
                    assert(balance_of(self.entries@, i) == balance_of(s1, i));
                } else if i == to {
                    assert(has_account(self.entries@, to));
                    assert(balance_of(s1, i) == balance_of(s0, i));
                } else {
                    assert(balance_of(self.entries@, i) == balance_of(s1, i));
                    assert(balance_of(s1, i) == balance_of(s0, i));
                }
            }
        }
        Ok(())
    }
}

} // verus!
