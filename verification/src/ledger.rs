//! The balances the offering rules move: for every asset and account a free
//! part, a reserved part, and a frozen floor under the free part.

use vstd::prelude::*;
use vstd::hash_map::HashMapWithView;
use crate::types::{AccountId, Balance, CurrencyId, LedgerError};

verus! {

broadcast use vstd::std_specs::hash::group_hash_axioms;

/// One account's holding of one asset.
#[derive(Clone, Copy, Debug, PartialEq, Eq, Structural)]
pub struct AccountData {
    pub free: Balance,
    pub reserved: Balance,
    pub frozen: Balance,
}

/// Where repatriated funds land on the receiving account.
#[derive(Clone, Copy, Debug, PartialEq, Eq, Structural)]
pub enum BalanceStatus {
    Free,
    Reserved,
}

/// An empty holding.
pub open spec fn empty_account() -> AccountData {
    AccountData { free: 0, reserved: 0, frozen: 0 }
}

/// A holding whose free and reserved parts together fit in a `u128`.
pub open spec fn account_fits(a: AccountData) -> bool {
    a.free + a.reserved <= u128::MAX
}

/// The lesser of two amounts.
pub open spec fn min_balance(a: Balance, b: Balance) -> Balance {
    if a <= b { a } else { b }
}

/// The storage key of an asset and account pair.
pub open spec fn ledger_key(c: CurrencyId, who: AccountId) -> u128 {
    (c as int * 0x1_0000_0000_0000_0000int + who as int) as u128
}

proof fn lemma_ledger_key_injective(c1: CurrencyId, w1: AccountId, c2: CurrencyId, w2: AccountId)
    requires
        ledger_key(c1, w1) == ledger_key(c2, w2),
    ensures
        c1 == c2,
        w1 == w2,
{
    let b: int = 0x1_0000_0000_0000_0000int;
    assert(c1 as int * b + w1 as int <= u128::MAX) by (nonlinear_arith)
        requires 0 <= c1 <= u32::MAX, 0 <= w1 <= u64::MAX, b == 0x1_0000_0000_0000_0000int;
    assert(c2 as int * b + w2 as int <= u128::MAX) by (nonlinear_arith)
        requires 0 <= c2 <= u32::MAX, 0 <= w2 <= u64::MAX, b == 0x1_0000_0000_0000_0000int;
    assert(c1 == c2 && w1 == w2) by (nonlinear_arith)
        requires
            c1 as int * b + w1 as int == c2 as int * b + w2 as int,
            0 <= w1 < b, 0 <= w2 < b, 0 <= c1, 0 <= c2, b > 0;
}

/// The ledger after moving `amount` of `who`'s free balance of `c` to its
/// reserved balance.
pub open spec fn spec_reserve(m: Map<(CurrencyId, AccountId), AccountData>, c: CurrencyId, who: AccountId, amount: Balance) -> Map<(CurrencyId, AccountId), AccountData> {
    m.insert((c, who), AccountData {
        free: (m[(c, who)].free - amount) as u128,
        reserved: (m[(c, who)].reserved + amount) as u128,
        ..m[(c, who)]
    })
}

/// The ledger after moving up to `amount` of `who`'s reserved balance of
/// `c` back to its free balance.
pub open spec fn spec_unreserve(m: Map<(CurrencyId, AccountId), AccountData>, c: CurrencyId, who: AccountId, amount: Balance) -> Map<(CurrencyId, AccountId), AccountData> {
    m.insert((c, who), AccountData {
        free: (m[(c, who)].free + min_balance(amount, m[(c, who)].reserved)) as u128,
        reserved: (m[(c, who)].reserved - min_balance(amount, m[(c, who)].reserved)) as u128,
        ..m[(c, who)]
    })
}

/// The ledger after destroying up to `amount` of `who`'s reserved balance
/// of `c`.
pub open spec fn spec_slash_reserved(m: Map<(CurrencyId, AccountId), AccountData>, c: CurrencyId, who: AccountId, amount: Balance) -> Map<(CurrencyId, AccountId), AccountData> {
    m.insert((c, who), AccountData {
        reserved: (m[(c, who)].reserved - min_balance(amount, m[(c, who)].reserved)) as u128,
        ..m[(c, who)]
    })
}

/// The ledger after moving `amount` of free balance of `c` from `from` to
/// `to`.
pub open spec fn spec_transfer(m: Map<(CurrencyId, AccountId), AccountData>, c: CurrencyId, from: AccountId, to: AccountId, amount: Balance) -> Map<(CurrencyId, AccountId), AccountData> {
    if amount == 0 || from == to {
        m
    } else {
        m.insert((c, from), AccountData { free: (m[(c, from)].free - amount) as u128, ..m[(c, from)] })
            .insert((c, to), AccountData { free: (m[(c, to)].free + amount) as u128, ..m[(c, to)] })
    }
}

/// The outcome of moving up to `amount` of the reserved balance of `c` of
/// `from` to `to`: the part of `amount` that was not reserved.
pub open spec fn spec_repatriate_result(m: Map<(CurrencyId, AccountId), AccountData>, c: CurrencyId, from: AccountId, to: AccountId, amount: Balance) -> Result<Balance, LedgerError> {
    let actual = min_balance(amount, m[(c, from)].reserved);
    if from != to && m[(c, to)].free + m[(c, to)].reserved + actual > u128::MAX {
        Err(LedgerError::Overflow)
    } else {
        Ok((amount - actual) as u128)
    }
}

/// The ledger after moving up to `amount` of the reserved balance of `c`
/// of `from` into the free or reserved balance of `to`.
pub open spec fn spec_repatriate(m: Map<(CurrencyId, AccountId), AccountData>, c: CurrencyId, from: AccountId, to: AccountId, amount: Balance, status: BalanceStatus) -> Map<(CurrencyId, AccountId), AccountData> {
    let fa = m[(c, from)];
    let ta = m[(c, to)];
    let actual = min_balance(amount, fa.reserved);
    if from == to {
        if status == BalanceStatus::Free { spec_unreserve(m, c, from, amount) } else { m }
    } else if ta.free + ta.reserved + actual > u128::MAX {
        m
    } else {
        m.insert((c, from), AccountData { reserved: (fa.reserved - actual) as u128, ..fa })
            .insert((c, to), if status == BalanceStatus::Free {
                AccountData { free: (ta.free + actual) as u128, ..ta }
            } else {
                AccountData { reserved: (ta.reserved + actual) as u128, ..ta }
            })
    }
}

/// Balances of every asset held by every account.
///
/// The ledger keeps no existential deposit: a holding of any size stays, and
/// an account may be emptied, so a keep-alive requirement on a transfer has
/// nothing to refuse. Slashed balance is destroyed: it leaves the ledger,
/// and nothing here receives it.
pub struct Ledger {
    accounts: HashMapWithView<u128, AccountData>,
}

impl View for Ledger {
    type V = Map<(CurrencyId, AccountId), AccountData>;

    closed spec fn view(&self) -> Map<(CurrencyId, AccountId), AccountData> {
        Map::new(
            |k: (CurrencyId, AccountId)| true,
            |k: (CurrencyId, AccountId)|
                if self.accounts@.contains_key(ledger_key(k.0, k.1)) {
                    self.accounts@[ledger_key(k.0, k.1)]
                } else {
                    empty_account()
                },
        )
    }
}

impl Ledger {
    /// Every holding's free and reserved parts fit together in a `u128`.
    pub open spec fn wf(&self) -> bool {
        &&& forall|k: (CurrencyId, AccountId)| #[trigger] self@.dom().contains(k)
        &&& forall|c: CurrencyId, w: AccountId| #[trigger] account_fits(self@[(c, w)])
    }

    /// The holding of `who` in asset `c`.
    pub open spec fn account(&self, c: CurrencyId, who: AccountId) -> AccountData {
        self@[(c, who)]
    }

    /// A ledger where nobody holds anything.
    pub fn new() -> (r: Self)
        ensures
            r.wf(),
            forall|c: CurrencyId, w: AccountId| #[trigger] r.account(c, w) == empty_account(),
    {
        let r = Ledger { accounts: HashMapWithView::new() };
        assert forall|c: CurrencyId, w: AccountId| #[trigger] r.account(c, w) == empty_account() by {
            assert(!r.accounts@.contains_key(ledger_key(c, w)));
        }
        r
    }

    fn key(c: CurrencyId, who: AccountId) -> (k: u128)
        ensures
            k == ledger_key(c, who),
    {
        assert(c as int * 0x1_0000_0000_0000_0000int + who as int <= u128::MAX) by (nonlinear_arith)
            requires 0 <= c <= u32::MAX, 0 <= who <= u64::MAX;
        (c as u128) * 0x1_0000_0000_0000_0000u128 + (who as u128)
    }

    /// The holding of `who` in asset `c`.
    pub fn get(&self, c: CurrencyId, who: AccountId) -> (r: AccountData)
        ensures
            r == self.account(c, who),
    {
        let k = Self::key(c, who);
        match self.accounts.get(&k) {
            Some(a) => *a,
            None => AccountData { free: 0, reserved: 0, frozen: 0 },
        }
    }

    fn set(&mut self, c: CurrencyId, who: AccountId, a: AccountData)
        ensures
            final(self)@ == old(self)@.insert((c, who), a),
    {
        let k = Self::key(c, who);
        self.accounts.insert(k, a);
        proof {
            assert forall|x: (CurrencyId, AccountId)| #![all_triggers]
                x != (c, who) implies final(self)@[x] == old(self)@[x] by {
                if ledger_key(x.0, x.1) == k {
                    lemma_ledger_key_injective(x.0, x.1, c, who);
                }
            }
            assert(final(self)@ =~= old(self)@.insert((c, who), a));
        }
    }

    /// Sets the frozen floor under the free balance of `who` in asset `c`.
    pub fn set_frozen(&mut self, c: CurrencyId, who: AccountId, frozen: Balance)
        requires
            old(self).wf(),
        ensures
            final(self).wf(),
            final(self)@ == old(self)@.insert((c, who), AccountData { frozen, ..old(self).account(c, who) }),
    {
        let a = self.get(c, who);
        assert(account_fits(old(self)@[(c, who)]));
        self.set(c, who, AccountData { frozen, ..a });
        proof { self.lemma_wf_after_set(*old(self), c, who); }
    }

    /// The free balance of `who` in asset `c`.
    pub fn free_balance(&self, c: CurrencyId, who: AccountId) -> (r: Balance)
        ensures
            r == self.account(c, who).free,
    {
        self.get(c, who).free
    }

    /// The reserved balance of `who` in asset `c`.
    pub fn reserved_balance(&self, c: CurrencyId, who: AccountId) -> (r: Balance)
        ensures
            r == self.account(c, who).reserved,
    {
        self.get(c, who).reserved
    }

    /// Whether `amount` may leave the free balance of `who`: it is covered
    /// and what stays is not below the frozen floor.
    pub fn ensure_can_withdraw(&self, c: CurrencyId, who: AccountId, amount: Balance) -> (r: Result<(), LedgerError>)
        ensures
            r == spec_can_withdraw(self.account(c, who), amount),
    {
        let a = self.get(c, who);
        if amount == 0 {
            Ok(())
        } else if a.free < amount {
            Err(LedgerError::BalanceTooLow)
        } else if a.free - amount < a.frozen {
            Err(LedgerError::LiquidityRestrictions)
        } else {
            Ok(())
        }
    }

    /// Whether a free balance of `new_balance` would respect the frozen floor
    /// of `who`.
    pub fn ensure_new_balance_allowed(&self, c: CurrencyId, who: AccountId, new_balance: Balance) -> (r: Result<(), LedgerError>)
        ensures
            r == (if new_balance >= self.account(c, who).frozen { Ok(()) } else { Err(LedgerError::LiquidityRestrictions) }),
    {
        let a = self.get(c, who);
        if new_balance >= a.frozen { Ok(()) } else { Err(LedgerError::LiquidityRestrictions) }
    }

    /// Whether `amount` could be moved from free to reserved.
    pub fn can_reserve(&self, c: CurrencyId, who: AccountId, amount: Balance) -> (r: bool)
        ensures
            r == (spec_can_withdraw(self.account(c, who), amount) is Ok),
    {
        self.ensure_can_withdraw(c, who, amount).is_ok()
    }

    /// Moves `amount` from the free to the reserved balance of `who`.
    pub fn reserve(&mut self, c: CurrencyId, who: AccountId, amount: Balance) -> (r: Result<(), LedgerError>)
        requires
            old(self).wf(),
        ensures
            final(self).wf(),
            r == spec_can_withdraw(old(self).account(c, who), amount),
            r is Ok ==> final(self)@ == spec_reserve(old(self)@, c, who, amount),
            r is Err ==> final(self)@ == old(self)@,
    {
        let res = self.ensure_can_withdraw(c, who, amount);
        match res {
            Err(e) => Err(e),
            Ok(()) => {
                let a = self.get(c, who);
                assert(account_fits(old(self)@[(c, who)]));
                self.set(c, who, AccountData { free: a.free - amount, reserved: a.reserved + amount, ..a });
                proof { self.lemma_wf_after_set(*old(self), c, who); }
                Ok(())
            },
        }
    }

    proof fn lemma_wf_after_set(&self, before: Ledger, c: CurrencyId, who: AccountId)
        requires
            before.wf(),
            account_fits(self@[(c, who)]),
            self@ == before@.insert((c, who), self@[(c, who)]),
        ensures
            self.wf(),
    {
        assert forall|c2: CurrencyId, w2: AccountId| #[trigger] account_fits(self@[(c2, w2)]) by {
            if (c2, w2) != (c, who) {
                assert(account_fits(before@[(c2, w2)]));
            }
        }
        assert forall|k: (CurrencyId, AccountId)| #[trigger] self@.dom().contains(k) by {
            assert(before@.dom().contains(k));
        }
    }

    /// Moves up to `amount` from the reserved back to the free balance of
    /// `who`; returns the part of `amount` that was not reserved.
    pub fn unreserve(&mut self, c: CurrencyId, who: AccountId, amount: Balance) -> (remaining: Balance)
        requires
            old(self).wf(),
        ensures
            final(self).wf(),
            remaining == amount - min_balance(amount, old(self).account(c, who).reserved),
            final(self)@ == spec_unreserve(old(self)@, c, who, amount),
    {
        let a = self.get(c, who);
        assert(account_fits(old(self)@[(c, who)]));
        let actual = if amount <= a.reserved { amount } else { a.reserved };
        self.set(c, who, AccountData { free: a.free + actual, reserved: a.reserved - actual, ..a });
        proof { self.lemma_wf_after_set(*old(self), c, who); }
        amount - actual
    }

    /// Destroys up to `amount` of the reserved balance of `who`; returns the
    /// part of `amount` that was not reserved. The slashed part leaves the
    /// ledger.
    pub fn slash_reserved(&mut self, c: CurrencyId, who: AccountId, amount: Balance) -> (remaining: Balance)
        requires
            old(self).wf(),
        ensures
            final(self).wf(),
            remaining == amount - min_balance(amount, old(self).account(c, who).reserved),
            final(self)@ == spec_slash_reserved(old(self)@, c, who, amount),
    {
        let a = self.get(c, who);
        assert(account_fits(old(self)@[(c, who)]));
        let actual = if amount <= a.reserved { amount } else { a.reserved };
        self.set(c, who, AccountData { reserved: a.reserved - actual, ..a });
        proof { self.lemma_wf_after_set(*old(self), c, who); }
        amount - actual
    }

    /// Moves `amount` of free balance from `from` to `to`. There is no
    /// minimum balance: `from` may be left with nothing.
    pub fn transfer(&mut self, c: CurrencyId, from: AccountId, to: AccountId, amount: Balance) -> (r: Result<(), LedgerError>)
        requires
            old(self).wf(),
        ensures
            final(self).wf(),
            r == spec_transfer_result(old(self)@, c, from, to, amount),
            r is Ok ==> final(self)@ == spec_transfer(old(self)@, c, from, to, amount),
            r is Err ==> final(self)@ == old(self)@,
    {
        if amount == 0 || from == to {
            return Ok(());
        }
        let res = self.ensure_can_withdraw(c, from, amount);
        match res {
            Err(e) => Err(e),
            Ok(()) => {
                let t = self.get(c, to);
                if t.free as u128 > u128::MAX - t.reserved || t.free + t.reserved > u128::MAX - amount {
                    return Err(LedgerError::Overflow);
                }
                let f = self.get(c, from);
                assert(account_fits(old(self)@[(c, from)]));
                self.set(c, from, AccountData { free: f.free - amount, ..f });
                proof { self.lemma_wf_after_set(*old(self), c, from); }
                let ghost mid = *self;
                self.set(c, to, AccountData { free: t.free + amount, ..t });
                proof { self.lemma_wf_after_set(mid, c, to); }
                Ok(())
            },
        }
    }

    /// Moves up to `amount` of the reserved balance of `from` to the free or
    /// reserved balance of `to`; returns the part of `amount` that was not
    /// reserved.
    pub fn repatriate_reserved(
        &mut self,
        c: CurrencyId,
        from: AccountId,
        to: AccountId,
        amount: Balance,
        status: BalanceStatus,
    ) -> (r: Result<Balance, LedgerError>)
        requires
            old(self).wf(),
        ensures
            final(self).wf(),
            r == spec_repatriate_result(old(self)@, c, from, to, amount),
            final(self)@ == spec_repatriate(old(self)@, c, from, to, amount, status),
    {
        let f = self.get(c, from);
        let actual = if amount <= f.reserved { amount } else { f.reserved };
        if from == to {
            match status {
                BalanceStatus::Free => {
                    let rest = self.unreserve(c, from, amount);
                    return Ok(rest);
                },
                BalanceStatus::Reserved => {
                    return Ok(amount - actual);
                },
            }
        }
        let t = self.get(c, to);
        if t.free as u128 > u128::MAX - t.reserved || t.free + t.reserved > u128::MAX - actual {
            return Err(LedgerError::Overflow);
        }
        assert(account_fits(old(self)@[(c, from)]));
        self.set(c, from, AccountData { reserved: f.reserved - actual, ..f });
        proof { self.lemma_wf_after_set(*old(self), c, from); }
        let ghost mid = *self;
        match status {
            BalanceStatus::Free => {
                self.set(c, to, AccountData { free: t.free + actual, ..t });
            },
            BalanceStatus::Reserved => {
                self.set(c, to, AccountData { reserved: t.reserved + actual, ..t });
            },
        }
        proof { self.lemma_wf_after_set(mid, c, to); }
        Ok(amount - actual)
    }

    /// Mints `amount` into the free balance of `who`; nothing happens when
    /// the holding would overflow. Returns whether the amount was minted.
    pub fn deposit_creating(&mut self, c: CurrencyId, who: AccountId, amount: Balance) -> (r: bool)
        requires
            old(self).wf(),
        ensures
            final(self).wf(),
            r == (old(self).account(c, who).free + old(self).account(c, who).reserved + amount <= u128::MAX),
            r ==> final(self)@ == old(self)@.insert((c, who), AccountData {
                free: (old(self).account(c, who).free + amount) as u128,
                ..old(self).account(c, who)
            }),
            !r ==> final(self)@ == old(self)@,
    {
        let a = self.get(c, who);
        assert(account_fits(old(self)@[(c, who)]));
        if a.free + a.reserved > u128::MAX - amount {
            return false;
        }
        self.set(c, who, AccountData { free: a.free + amount, ..a });
        proof { self.lemma_wf_after_set(*old(self), c, who); }
        true
    }
}

/// Whether `amount` may leave a holding's free balance.
pub open spec fn spec_can_withdraw(a: AccountData, amount: Balance) -> Result<(), LedgerError> {
    if amount == 0 {
        Ok(())
    } else if a.free < amount {
        Err(LedgerError::BalanceTooLow)
    } else if a.free - amount < a.frozen {
        Err(LedgerError::LiquidityRestrictions)
    } else {
        Ok(())
    }
}

/// The outcome of a transfer of free balance.
pub open spec fn spec_transfer_result(
    m: Map<(CurrencyId, AccountId), AccountData>,
    c: CurrencyId,
    from: AccountId,
    to: AccountId,
    amount: Balance,
) -> Result<(), LedgerError> {
    if amount == 0 || from == to {
        Ok(())
    } else if spec_can_withdraw(m[(c, from)], amount) is Err {
        spec_can_withdraw(m[(c, from)], amount)
    } else if m[(c, to)].free + m[(c, to)].reserved + amount > u128::MAX {
        Err(LedgerError::Overflow)
    } else {
        Ok(())
    }
}

} // verus!
