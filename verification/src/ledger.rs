//! A verified model ledger: per-account free balance, holds under two
//! reasons, and a vote freeze. It offers exactly the operations the core
//! needs: balance inspection, hold, release, freeze bookkeeping, mint and
//! burn.

use vstd::prelude::*;
use crate::types::Error;
use crate::types::FreezeReason;
use crate::types::HoldReason;

verus! {

/// One account's balances: spendable funds, funds on hold under each
/// reason, and the amount frozen behind votes.
#[derive(Debug, PartialEq, Eq, Structural, Clone, Copy)]
pub struct Account {
    pub free: u64,
    pub held_bond: u64,
    pub held_rent: u64,
    pub frozen: u64,
}

/// The balances of an account the ledger has never touched.
pub open spec fn zero_account() -> Account {
    Account { free: 0, held_bond: 0, held_rent: 0, frozen: 0 }
}

pub open spec fn max_int(a: int, b: int) -> int {
    if a >= b {
        a
    } else {
        b
    }
}

pub open spec fn min_int(a: int, b: int) -> int {
    if a <= b {
        a
    } else {
        b
    }
}

pub open spec fn sat_sub_int(a: int, b: int) -> int {
    if a >= b {
        a - b
    } else {
        0
    }
}

/// The sum of an account's balances fits the balance type; every account
/// the ledger hands out satisfies this.
pub open spec fn acct_ok(a: Account) -> bool {
    a.free + a.held_bond + a.held_rent <= u64::MAX
}

/// Free plus held: the account's total balance.
pub open spec fn total_of(a: Account) -> int {
    a.free + a.held_bond + a.held_rent
}

/// The spendable part of the free balance: what remains above the frozen
/// amount (already discounted by funds on hold) and the existential
/// deposit.
pub open spec fn reducible_of(a: Account, ed: u64) -> int {
    sat_sub_int(
        a.free as int,
        max_int(sat_sub_int(a.frozen as int, a.held_bond + a.held_rent), ed as int),
    )
}

/// A hold succeeds when the amount is covered by the free balance less the
/// existential deposit.
pub open spec fn hold_ok(a: Account, ed: u64, amount: u64) -> bool {
    amount as int <= sat_sub_int(a.free as int, ed as int)
}

/// The account after a successful hold: the amount moves from free to the
/// reason's hold.
pub open spec fn hold_applied(a: Account, reason: HoldReason, amount: u64) -> Account {
    match reason {
        HoldReason::PostBond => Account {
            free: (a.free - amount) as u64,
            held_bond: (a.held_bond + amount) as u64,
            ..a
        },
        HoldReason::StorageRent => Account {
            free: (a.free - amount) as u64,
            held_rent: (a.held_rent + amount) as u64,
            ..a
        },
    }
}

/// How much a best-effort release returns to free: at most what the reason
/// holds.
pub open spec fn release_amount(a: Account, reason: HoldReason, amount: u64) -> u64 {
    match reason {
        HoldReason::PostBond => if amount <= a.held_bond {
            amount
        } else {
            a.held_bond
        },
        HoldReason::StorageRent => if amount <= a.held_rent {
            amount
        } else {
            a.held_rent
        },
    }
}

/// The account after a best-effort release.
pub open spec fn release_applied(a: Account, reason: HoldReason, amount: u64) -> Account {
    let r = release_amount(a, reason, amount);
    match reason {
        HoldReason::PostBond => Account {
            free: (a.free + r) as u64,
            held_bond: (a.held_bond - r) as u64,
            ..a
        },
        HoldReason::StorageRent => Account {
            free: (a.free + r) as u64,
            held_rent: (a.held_rent - r) as u64,
            ..a
        },
    }
}

/// The account after extending the vote freeze: the freeze becomes the
/// maximum of its old value and the amount.
pub open spec fn freeze_applied(a: Account, amount: u64) -> Account {
    Account { frozen: if a.frozen >= amount {
        a.frozen
    } else {
        amount
    }, ..a }
}

/// The account after raising the freeze by `amount`, saturating at the
/// balance type's ceiling.
pub open spec fn freeze_raised(a: Account, amount: u64) -> Account {
    Account { frozen: if a.frozen + amount <= u64::MAX {
        (a.frozen + amount) as u64
    } else {
        u64::MAX
    }, ..a }
}

/// The account after decreasing the vote freeze, saturating at zero.
pub open spec fn thaw_applied(a: Account, amount: u64) -> Account {
    Account { frozen: if a.frozen >= amount {
        (a.frozen - amount) as u64
    } else {
        0
    }, ..a }
}

/// The account after replacing a frozen stake of `old_amount` by one of
/// `new_amount`: the freeze moves by the net difference, raised or thawed.
pub open spec fn freeze_reconciled(a: Account, old_amount: u64, new_amount: u64) -> Account {
    if new_amount >= old_amount {
        freeze_raised(a, (new_amount - old_amount) as u64)
    } else {
        thaw_applied(a, (old_amount - new_amount) as u64)
    }
}

/// How much a mint credits: at most the headroom the balance type leaves.
pub open spec fn mint_credit(a: Account, amount: u64) -> u64 {
    min_int(amount as int, u64::MAX - total_of(a)) as u64
}

/// The account after a saturating mint into free.
pub open spec fn mint_applied(a: Account, amount: u64) -> Account {
    Account { free: (a.free + mint_credit(a, amount)) as u64, ..a }
}

/// How much a best-effort burn takes: at most the free balance above the
/// existential deposit.
pub open spec fn burn_amount(a: Account, ed: u64, amount: u64) -> u64 {
    min_int(amount as int, sat_sub_int(a.free as int, ed as int)) as u64
}

/// The account after a best-effort burn from free.
pub open spec fn burn_applied(a: Account, ed: u64, amount: u64) -> Account {
    Account { free: (a.free - burn_amount(a, ed, amount)) as u64, ..a }
}

/// The account after forcing the free balance to `amount`, clipped to the
/// headroom the holds leave.
pub open spec fn set_balance_applied(a: Account, amount: u64) -> Account {
    Account { free: min_int(amount as int, u64::MAX - a.held_bond - a.held_rent) as u64, ..a }
}

/// The account the entry sequence gives `who`; accounts never written are
/// zero.
pub open spec fn lookup_acct(s: Seq<(u64, Account)>, who: u64) -> Account
    decreases s.len(),
{
    if s.len() == 0 {
        zero_account()
    } else if s.last().0 == who {
        s.last().1
    } else {
        lookup_acct(s.drop_last(), who)
    }
}

spec fn distinct_acct_keys(s: Seq<(u64, Account)>) -> bool {
    forall|i: int, j: int| 0 <= i < j < s.len() ==> s[i].0 != s[j].0
}

spec fn all_accts_ok(s: Seq<(u64, Account)>) -> bool {
    forall|i: int| 0 <= i < s.len() ==> acct_ok(#[trigger] s[i].1)
}

proof fn lemma_lookup_ok(s: Seq<(u64, Account)>, who: u64)
    requires
        all_accts_ok(s),
    ensures
        acct_ok(lookup_acct(s, who)),
    decreases s.len(),
{
    if s.len() > 0 && s.last().0 != who {
        assert(all_accts_ok(s.drop_last()));
        lemma_lookup_ok(s.drop_last(), who);
    }
}

proof fn lemma_lookup_at(s: Seq<(u64, Account)>, i: int)
    requires
        distinct_acct_keys(s),
        0 <= i < s.len(),
    ensures
        lookup_acct(s, s[i].0) == s[i].1,
    decreases s.len(),
{
    if i < s.len() - 1 {
        assert(distinct_acct_keys(s.drop_last()));
        lemma_lookup_at(s.drop_last(), i);
    }
}

proof fn lemma_lookup_remove(s: Seq<(u64, Account)>, i: int, who: u64)
    requires
        distinct_acct_keys(s),
        0 <= i < s.len(),
    ensures
        lookup_acct(s.remove(i), who) == if who == s[i].0 {
            zero_account()
        } else {
            lookup_acct(s, who)
        },
    decreases s.len(),
{
    if i == s.len() - 1 {
        assert(s.remove(i) =~= s.drop_last());
        if who == s[i].0 {
            lemma_lookup_absent(s.drop_last(), who, s, i);
        }
    } else {
        assert(distinct_acct_keys(s.drop_last()));
        lemma_lookup_remove(s.drop_last(), i, who);
        assert(s.remove(i).drop_last() =~= s.drop_last().remove(i));
        assert(s.remove(i).last() == s.last());
    }
}

/// If no entry of `s` carries `who`, lookup gives the zero account. The
/// last two parameters carry the distinctness context of the caller.
proof fn lemma_lookup_absent(s: Seq<(u64, Account)>, who: u64, full: Seq<(u64, Account)>, i: int)
    requires
        0 <= i < full.len(),
        full[i].0 == who,
        distinct_acct_keys(full),
        s == full.drop_last(),
        i == full.len() - 1,
    ensures
        lookup_acct(s, who) == zero_account(),
{
    lemma_lookup_none(s, who);
}

proof fn lemma_lookup_none(s: Seq<(u64, Account)>, who: u64)
    requires
        forall|j: int| 0 <= j < s.len() ==> s[j].0 != who,
    ensures
        lookup_acct(s, who) == zero_account(),
    decreases s.len(),
{
    if s.len() > 0 {
        assert(forall|j: int| 0 <= j < s.drop_last().len() ==> s.drop_last()[j].0 != who);
        lemma_lookup_none(s.drop_last(), who);
    }
}

pub(crate) fn sat_sub_u64(a: u64, b: u64) -> (r: u64)
    ensures
        r as int == sat_sub_int(a as int, b as int),
{
    if a >= b {
        a - b
    } else {
        0
    }
}

/// The ledger: an existential deposit and the accounts written so far.
pub struct Ledger {
    existential_deposit: u64,
    accounts: Vec<(u64, Account)>,
}

impl Ledger {
    pub closed spec fn wf(&self) -> bool {
        distinct_acct_keys(self.accounts@) && all_accts_ok(self.accounts@)
    }

    /// The configured existential deposit.
    pub closed spec fn ed(&self) -> u64 {
        self.existential_deposit
    }

    /// The balances of `who`.
    pub closed spec fn acct(&self, who: u64) -> Account {
        lookup_acct(self.accounts@, who)
    }

    /// The configured existential deposit.
    pub fn existential_deposit(&self) -> (r: u64)
        ensures
            r == self.ed(),
    {
        self.existential_deposit
    }

    pub fn new(existential_deposit: u64) -> (r: Ledger)
        ensures
            r.wf(),
            r.ed() == existential_deposit,
            forall|w: u64| r.acct(w) == zero_account(),
    {
        Ledger { existential_deposit, accounts: Vec::new() }
    }

    /// Every account the ledger gives out has a total within the balance
    /// type.
    pub proof fn lemma_acct_ok(&self, who: u64)
        requires
            self.wf(),
        ensures
            acct_ok(self.acct(who)),
    {
        lemma_lookup_ok(self.accounts@, who);
    }

    fn position(&self, who: u64) -> (r: Option<usize>)
        ensures
            match r {
                Some(i) => i < self.accounts@.len() && self.accounts@[i as int].0 == who,
                None => forall|j: int| 0 <= j < self.accounts@.len() ==> self.accounts@[j].0 != who,
            },
    {
        let mut i: usize = 0;
        while i < self.accounts.len()
            invariant
                0 <= i <= self.accounts@.len(),
                forall|j: int| 0 <= j < i ==> self.accounts@[j].0 != who,
            decreases self.accounts@.len() - i,
        {
            if self.accounts[i].0 == who {
                return Some(i);
            }
            i = i + 1;
        }
        None
    }

    /// A copy of the balances of `who`.
    fn get_acct(&self, who: u64) -> (r: Account)
        requires
            self.wf(),
        ensures
            r == self.acct(who),
            acct_ok(r),
    {
        proof {
            self.lemma_acct_ok(who);
        }
        match self.position(who) {
            Some(i) => {
                proof {
                    lemma_lookup_at(self.accounts@, i as int);
                }
                self.accounts[i].1
            },
            None => {
                proof {
                    lemma_lookup_none(self.accounts@, who);
                }
                Account { free: 0, held_bond: 0, held_rent: 0, frozen: 0 }
            },
        }
    }

    /// Writes the balances of `who`.
    fn set_acct(&mut self, who: u64, a: Account)
        requires
            old(self).wf(),
            acct_ok(a),
        ensures
            final(self).wf(),
            final(self).ed() == old(self).ed(),
            final(self).acct(who) == a,
            forall|w: u64| w != who ==> final(self).acct(w) == old(self).acct(w),
    {
        let ghost s0 = self.accounts@;
        match self.position(who) {
            Some(i) => {
                let _prev = self.accounts.remove(i);
                self.accounts.push((who, a));
                proof {
                    assert(self.accounts@.drop_last() =~= s0.remove(i as int));
                    assert forall|w: u64| w != who implies lookup_acct(self.accounts@, w)
                        == lookup_acct(s0, w) by {
                        lemma_lookup_remove(s0, i as int, w);
                        assert(lookup_acct(self.accounts@, w) == lookup_acct(
                            self.accounts@.drop_last(),
                            w,
                        ));
                    }
                    assert forall|j: int|
                        0 <= j < s0.remove(i as int).len() implies s0.remove(i as int)[j].0
                        != who by {
                        if j < i as int {
                            assert(s0.remove(i as int)[j] == s0[j]);
                        } else {
                            assert(s0.remove(i as int)[j] == s0[j + 1]);
                        }
                    }
                }
            },
            None => {
                self.accounts.push((who, a));
                proof {
                    assert(self.accounts@.drop_last() =~= s0);
                }
            },
        }
    }

    /// The free balance of `who`.
    pub fn free_balance(&self, who: u64) -> (r: u64)
        requires
            self.wf(),
        ensures
            r == self.acct(who).free,
    {
        self.get_acct(who).free
    }

    /// The total balance of `who`: free plus held.
    pub fn total_balance(&self, who: u64) -> (r: u64)
        requires
            self.wf(),
        ensures
            r as int == total_of(self.acct(who)),
    {
        let a = self.get_acct(who);
        a.free + a.held_bond + a.held_rent
    }

    /// What `who` has on hold under both reasons together.
    pub fn total_balance_on_hold(&self, who: u64) -> (r: u64)
        requires
            self.wf(),
        ensures
            r as int == self.acct(who).held_bond + self.acct(who).held_rent,
    {
        let a = self.get_acct(who);
        a.held_bond + a.held_rent
    }

    /// What `who` has frozen behind votes.
    pub fn balance_frozen(&self, who: u64) -> (r: u64)
        requires
            self.wf(),
        ensures
            r == self.acct(who).frozen,
    {
        self.get_acct(who).frozen
    }

    /// The spendable balance of `who`, preserving the existential deposit
    /// and respecting freezes.
    pub fn reducible_balance(&self, who: u64) -> (r: u64)
        requires
            self.wf(),
        ensures
            r as int == reducible_of(self.acct(who), self.ed()),
    {
        let a = self.get_acct(who);
        let held = a.held_bond + a.held_rent;
        let uncovered = sat_sub_u64(a.frozen, held);
        let untouchable = if uncovered >= self.existential_deposit {
            uncovered
        } else {
            self.existential_deposit
        };
        sat_sub_u64(a.free, untouchable)
    }

    /// Forces the free balance of `who` to `amount`, clipped to what the
    /// balance type allows next to the existing holds.
    pub fn set_balance(&mut self, who: u64, amount: u64)
        requires
            old(self).wf(),
        ensures
            final(self).wf(),
            final(self).ed() == old(self).ed(),
            final(self).acct(who) == set_balance_applied(old(self).acct(who), amount),
            forall|w: u64| w != who ==> final(self).acct(w) == old(self).acct(w),
    {
        let a = self.get_acct(who);
        let headroom = u64::MAX - a.held_bond - a.held_rent;
        let new_free = if amount <= headroom {
            amount
        } else {
            headroom
        };
        self.set_acct(who, Account { free: new_free, ..a });
    }

    /// Escrows `amount` of `who`'s free balance under `reason`. Fails, and
    /// changes nothing, when the free balance less the existential deposit
    /// cannot cover it.
    pub fn hold(&mut self, reason: HoldReason, who: u64, amount: u64) -> (r: Result<(), Error>)
        requires
            old(self).wf(),
        ensures
            final(self).wf(),
            final(self).ed() == old(self).ed(),
            r is Ok <==> hold_ok(old(self).acct(who), old(self).ed(), amount),
            r is Ok ==> final(self).acct(who) == hold_applied(old(self).acct(who), reason, amount),
            r is Ok ==> forall|w: u64| w != who ==> final(self).acct(w) == old(self).acct(w),
            r is Err ==> r == Err::<(), Error>(Error::InsufficientFreeBalance) && *final(self)
                == *old(self),
    {
        let a = self.get_acct(who);
        let available = sat_sub_u64(a.free, self.existential_deposit);
        if amount > available {
            return Err(Error::InsufficientFreeBalance);
        }
        let updated = match reason {
            HoldReason::PostBond => Account {
                free: a.free - amount,
                held_bond: a.held_bond + amount,
                ..a
            },
            HoldReason::StorageRent => Account {
                free: a.free - amount,
                held_rent: a.held_rent + amount,
                ..a
            },
        };
        self.set_acct(who, updated);
        Ok(())
    }

    /// Releases up to `amount` of the hold under `reason` back to free,
    /// best effort, returning what was released.
    pub fn release(&mut self, reason: HoldReason, who: u64, amount: u64) -> (r: u64)
        requires
            old(self).wf(),
        ensures
            final(self).wf(),
            final(self).ed() == old(self).ed(),
            r == release_amount(old(self).acct(who), reason, amount),
            final(self).acct(who) == release_applied(old(self).acct(who), reason, amount),
            forall|w: u64| w != who ==> final(self).acct(w) == old(self).acct(w),
    {
        let a = self.get_acct(who);
        match reason {
            HoldReason::PostBond => {
                let rel = if amount <= a.held_bond {
                    amount
                } else {
                    a.held_bond
                };
                self.set_acct(
                    who,
                    Account { free: a.free + rel, held_bond: a.held_bond - rel, ..a },
                );
                rel
            },
            HoldReason::StorageRent => {
                let rel = if amount <= a.held_rent {
                    amount
                } else {
                    a.held_rent
                };
                self.set_acct(
                    who,
                    Account { free: a.free + rel, held_rent: a.held_rent - rel, ..a },
                );
                rel
            },
        }
    }

    /// Raises the freeze of `who` under `reason` to at least `amount`.
    pub fn extend_freeze(&mut self, reason: FreezeReason, who: u64, amount: u64)
        requires
            old(self).wf(),
        ensures
            final(self).wf(),
            final(self).ed() == old(self).ed(),
            final(self).acct(who) == freeze_applied(old(self).acct(who), amount),
            forall|w: u64| w != who ==> final(self).acct(w) == old(self).acct(w),
    {
        let a = self.get_acct(who);
        let frozen = match reason {
            FreezeReason::Vote => if a.frozen >= amount {
                a.frozen
            } else {
                amount
            },
        };
        self.set_acct(who, Account { frozen, ..a });
    }

    /// Raises the freeze of `who` under `reason` by `amount`, saturating
    /// at the balance type's ceiling.
    pub fn increase_frozen(&mut self, reason: FreezeReason, who: u64, amount: u64)
        requires
            old(self).wf(),
        ensures
            final(self).wf(),
            final(self).ed() == old(self).ed(),
            final(self).acct(who) == freeze_raised(old(self).acct(who), amount),
            forall|w: u64| w != who ==> final(self).acct(w) == old(self).acct(w),
    {
        let a = self.get_acct(who);
        let frozen = match reason {
            FreezeReason::Vote => if amount <= u64::MAX - a.frozen {
                a.frozen + amount
            } else {
                u64::MAX
            },
        };
        self.set_acct(who, Account { frozen, ..a });
    }

    /// Lowers the freeze of `who` under `reason` by `amount`, saturating
    /// at zero.
    pub fn decrease_frozen(&mut self, reason: FreezeReason, who: u64, amount: u64)
        requires
            old(self).wf(),
        ensures
            final(self).wf(),
            final(self).ed() == old(self).ed(),
            final(self).acct(who) == thaw_applied(old(self).acct(who), amount),
            forall|w: u64| w != who ==> final(self).acct(w) == old(self).acct(w),
    {
        let a = self.get_acct(who);
        let frozen = match reason {
            FreezeReason::Vote => sat_sub_u64(a.frozen, amount),
        };
        self.set_acct(who, Account { frozen, ..a });
    }

    /// Mints up to `amount` into `who`'s free balance, saturating at the
    /// headroom the balance type leaves.
    pub fn mint_into(&mut self, who: u64, amount: u64)
        requires
            old(self).wf(),
        ensures
            final(self).wf(),
            final(self).ed() == old(self).ed(),
            final(self).acct(who) == mint_applied(old(self).acct(who), amount),
            forall|w: u64| w != who ==> final(self).acct(w) == old(self).acct(w),
    {
        let a = self.get_acct(who);
        let headroom = u64::MAX - a.free - a.held_bond - a.held_rent;
        let credited = if amount <= headroom {
            amount
        } else {
            headroom
        };
        self.set_acct(who, Account { free: a.free + credited, ..a });
    }

    /// Burns up to `amount` from `who`'s free balance, best effort,
    /// keeping the existential deposit; returns what was burned.
    pub fn burn_from(&mut self, who: u64, amount: u64) -> (r: u64)
        requires
            old(self).wf(),
        ensures
            final(self).wf(),
            final(self).ed() == old(self).ed(),
            r == burn_amount(old(self).acct(who), old(self).ed(), amount),
            final(self).acct(who) == burn_applied(old(self).acct(who), old(self).ed(), amount),
            forall|w: u64| w != who ==> final(self).acct(w) == old(self).acct(w),
    {
        let a = self.get_acct(who);
        let available = sat_sub_u64(a.free, self.existential_deposit);
        let burned = if amount <= available {
            amount
        } else {
            available
        };
        self.set_acct(who, Account { free: a.free - burned, ..a });
        burned
    }
}

} // verus!
