use vstd::prelude::*;
use crate::account::AccountId;
use crate::error::Error;

verus! {

/// The fungible balance store backing the ledger: one non-negative balance
/// per account and a total supply, behind the narrow interface the ledger
/// needs (`balance_of`, `mint`, `burn`).
pub struct BalanceStore {
    /// Descriptive metadata, carried but never interpreted.
    name: String,
    symbol: String,
    decimals: u8,
    entries: Vec<(AccountId, u64)>,
    total_supply: u64,
}

/// The balance an entry list gives to `a`: the amount of the first entry for
/// `a`, or zero when there is none.
pub open spec fn balance_in(entries: Seq<(AccountId, u64)>, a: AccountId) -> nat
    decreases entries.len(),
{
    if entries.len() == 0 {
        0
    } else if entries[0].0 == a {
        entries[0].1 as nat
    } else {
        balance_in(entries.drop_first(), a)
    }
}

/// The sum of all amounts in an entry list.
pub open spec fn sum_of(entries: Seq<(AccountId, u64)>) -> nat
    decreases entries.len(),
{
    if entries.len() == 0 {
        0
    } else {
        (entries[0].1 + sum_of(entries.drop_first())) as nat
    }
}

/// No account appears twice.
pub open spec fn distinct_accounts(entries: Seq<(AccountId, u64)>) -> bool {
    forall|i: int, j: int|
        0 <= i < j < entries.len() ==> (#[trigger] entries[i]).0 != (#[trigger] entries[j]).0
}

/// When `i` is the first entry for its account, that entry's amount is the
/// account's balance.
proof fn lemma_balance_at(entries: Seq<(AccountId, u64)>, a: AccountId, i: int)
    requires
        0 <= i < entries.len(),
        entries[i].0 == a,
        forall|j: int| 0 <= j < i ==> (#[trigger] entries[j]).0 != a,
    ensures
        balance_in(entries, a) == entries[i].1 as nat,
    decreases i,
{
    if i > 0 {
        let rest = entries.drop_first();
        assert forall|j: int| 0 <= j < i - 1 implies (#[trigger] rest[j]).0 != a by {
            assert(rest[j] == entries[j + 1]);
        }
        assert(rest[i - 1] == entries[i]);
        lemma_balance_at(rest, a, i - 1);
    }
}

/// An account with no entry has balance zero.
proof fn lemma_balance_absent(entries: Seq<(AccountId, u64)>, a: AccountId)
    requires
        forall|j: int| 0 <= j < entries.len() ==> (#[trigger] entries[j]).0 != a,
    ensures
        balance_in(entries, a) == 0,
    decreases entries.len(),
{
    if entries.len() > 0 {
        let rest = entries.drop_first();
        assert forall|j: int| 0 <= j < rest.len() implies (#[trigger] rest[j]).0 != a by {
            assert(rest[j] == entries[j + 1]);
        }
        lemma_balance_absent(rest, a);
    }
}

/// No single balance exceeds the sum of all of them.
proof fn lemma_balance_le_sum(entries: Seq<(AccountId, u64)>, a: AccountId)
    ensures
        balance_in(entries, a) <= sum_of(entries),
    decreases entries.len(),
{
    if entries.len() > 0 {
        lemma_balance_le_sum(entries.drop_first(), a);
    }
}

/// Replacing the amount of the first entry for an account moves that
/// account's balance to the new amount and no other.
proof fn lemma_update_balance(entries: Seq<(AccountId, u64)>, i: int, v: u64, a: AccountId)
    requires
        0 <= i < entries.len(),
        forall|j: int| 0 <= j < i ==> (#[trigger] entries[j]).0 != entries[i].0,
    ensures
        balance_in(entries.update(i, (entries[i].0, v)), a) == if a == entries[i].0 {
            v as nat
        } else {
            balance_in(entries, a)
        },
    decreases i,
{
    let updated = entries.update(i, (entries[i].0, v));
    if i == 0 {
        if a != entries[0].0 {
            assert(updated.drop_first() =~= entries.drop_first());
        }
    } else {
        assert(updated[0] == entries[0]);
        let rest = entries.drop_first();
        assert forall|j: int| 0 <= j < i - 1 implies (#[trigger] rest[j]).0 != rest[i - 1].0 by {
            assert(rest[j] == entries[j + 1]);
            assert(rest[i - 1] == entries[i]);
        }
        assert(updated.drop_first() =~= rest.update(i - 1, (rest[i - 1].0, v)));
        lemma_update_balance(rest, i - 1, v, a);
    }
}

/// Replacing one amount moves the sum by the difference.
proof fn lemma_update_sum(entries: Seq<(AccountId, u64)>, i: int, v: u64)
    requires
        0 <= i < entries.len(),
    ensures
        sum_of(entries.update(i, (entries[i].0, v))) == sum_of(entries) - entries[i].1 + v,
    decreases i,
{
    let updated = entries.update(i, (entries[i].0, v));
    if i == 0 {
        assert(updated.drop_first() =~= entries.drop_first());
    } else {
        assert(updated[0] == entries[0]);
        let rest = entries.drop_first();
        assert(rest[i - 1] == entries[i]);
        assert(updated.drop_first() =~= rest.update(i - 1, (rest[i - 1].0, v)));
        lemma_update_sum(rest, i - 1, v);
    }
}

/// An update that keeps the account keeps the accounts distinct.
proof fn lemma_update_distinct(entries: Seq<(AccountId, u64)>, i: int, v: u64)
    requires
        0 <= i < entries.len(),
        distinct_accounts(entries),
    ensures
        distinct_accounts(entries.update(i, (entries[i].0, v))),
{
    let updated = entries.update(i, (entries[i].0, v));
    assert forall|k: int| 0 <= k < updated.len() implies (#[trigger] updated[k]).0 == entries[k].0 by {}
}

/// Appending an entry for a fresh account gives that account the appended
/// amount and leaves every other balance alone.
proof fn lemma_push_balance(entries: Seq<(AccountId, u64)>, p: (AccountId, u64), a: AccountId)
    requires
        forall|j: int| 0 <= j < entries.len() ==> (#[trigger] entries[j]).0 != p.0,
    ensures
        balance_in(entries.push(p), a) == if a == p.0 {
            p.1 as nat
        } else {
            balance_in(entries, a)
        },
    decreases entries.len(),
{
    let pushed = entries.push(p);
    if entries.len() == 0 {
        assert(pushed[0] == p);
        assert(pushed.drop_first() =~= Seq::<(AccountId, u64)>::empty());
        assert(balance_in(Seq::<(AccountId, u64)>::empty(), a) == 0);
        assert(balance_in(entries, a) == 0);
    } else {
        assert(pushed[0] == entries[0]);
        let rest = entries.drop_first();
        assert forall|j: int| 0 <= j < rest.len() implies (#[trigger] rest[j]).0 != p.0 by {
            assert(rest[j] == entries[j + 1]);
        }
        assert(pushed.drop_first() =~= rest.push(p));
        lemma_push_balance(rest, p, a);
    }
}

/// Appending an entry raises the sum by its amount.
proof fn lemma_push_sum(entries: Seq<(AccountId, u64)>, p: (AccountId, u64))
    ensures
        sum_of(entries.push(p)) == sum_of(entries) + p.1,
    decreases entries.len(),
{
    let pushed = entries.push(p);
    if entries.len() == 0 {
        assert(pushed[0] == p);
        assert(pushed.drop_first() =~= Seq::<(AccountId, u64)>::empty());
        assert(sum_of(Seq::<(AccountId, u64)>::empty()) == 0);
        assert(sum_of(entries) == 0);
    } else {
        assert(pushed[0] == entries[0]);
        assert(pushed.drop_first() =~= entries.drop_first().push(p));
        lemma_push_sum(entries.drop_first(), p);
    }
}

/// Appending an entry for a fresh account keeps the accounts distinct.
proof fn lemma_push_distinct(entries: Seq<(AccountId, u64)>, p: (AccountId, u64))
    requires
        distinct_accounts(entries),
        forall|j: int| 0 <= j < entries.len() ==> (#[trigger] entries[j]).0 != p.0,
    ensures
        distinct_accounts(entries.push(p)),
{
}

impl BalanceStore {
    /// The store is well formed: each account has at most one entry, and the
    /// recorded total supply is exactly the sum of all balances.
    pub closed spec fn wf(self) -> bool {
        &&& distinct_accounts(self.entries@)
        &&& sum_of(self.entries@) == self.total_supply as nat
    }

    /// The balance of `a`; zero for an account never minted to.
    pub closed spec fn balance(self, a: AccountId) -> nat {
        balance_in(self.entries@, a)
    }

    /// All balances at once, as a total map (absent accounts hold zero).
    pub open spec fn balances(self) -> Map<AccountId, nat> {
        Map::total(|a: AccountId| self.balance(a))
    }

    /// The total supply: always the sum of all balances.
    pub closed spec fn supply(self) -> nat {
        self.total_supply as nat
    }

    /// The descriptive name given at construction.
    pub closed spec fn spec_name(self) -> String {
        self.name
    }

    /// The descriptive symbol given at construction.
    pub closed spec fn spec_symbol(self) -> String {
        self.symbol
    }

    /// The decimal precision given at construction.
    pub closed spec fn spec_decimals(self) -> u8 {
        self.decimals
    }

    /// The descriptive name given at construction.
    pub fn name(&self) -> (r: &String)
        ensures
            r == self.spec_name(),
    {
        &self.name
    }

    /// The descriptive symbol given at construction.
    pub fn symbol(&self) -> (r: &String)
        ensures
            r == self.spec_symbol(),
    {
        &self.symbol
    }

    /// The decimal precision given at construction.
    pub fn decimals(&self) -> (r: u8)
        ensures
            r == self.spec_decimals(),
    {
        self.decimals
    }

    /// A new store holding `initial_supply` on `initial_holder`'s account and
    /// nothing anywhere else.
    pub fn new(
        name: String,
        symbol: String,
        decimals: u8,
        initial_supply: u64,
        initial_holder: AccountId,
    ) -> (s: BalanceStore)
        ensures
            s.wf(),
            s.balance(initial_holder) == initial_supply as nat,
            forall|a: AccountId| a != initial_holder ==> s.balance(a) == 0,
            s.supply() == initial_supply as nat,
            s.spec_name() == name,
            s.spec_symbol() == symbol,
            s.spec_decimals() == decimals,
    {
        let mut entries: Vec<(AccountId, u64)> = Vec::new();
        entries.push((initial_holder, initial_supply));
        proof {
            let single = entries@;
            assert forall|a: AccountId| a != initial_holder implies balance_in(single, a) == 0 by {
                lemma_push_balance(Seq::empty(), (initial_holder, initial_supply), a);
            }
            lemma_push_balance(Seq::empty(), (initial_holder, initial_supply), initial_holder);
            lemma_push_sum(Seq::empty(), (initial_holder, initial_supply));
        }
        BalanceStore { name, symbol, decimals, entries, total_supply: initial_supply }
    }

    /// The position of `a`'s entry, if it has one.
    fn find(&self, a: AccountId) -> (r: Option<usize>)
        ensures
            (match r {
                Some(i) => i < self.entries@.len() && self.entries@[i as int].0 == a
                    && (forall|j: int| 0 <= j < i ==> (#[trigger] self.entries@[j]).0 != a),
                None => forall|j: int|
                    0 <= j < self.entries@.len() ==> (#[trigger] self.entries@[j]).0 != a,
            }),
    {
        let n = self.entries.len();
        let mut i: usize = 0;
        while i < n
            invariant
                i <= n,
                n == self.entries@.len(),
                forall|j: int| 0 <= j < i ==> (#[trigger] self.entries@[j]).0 != a,
            decreases n - i,
        {
            if self.entries[i].0 == a {
                return Some(i);
            }
            i = i + 1;
        }
        None
    }

    /// The current balance of `a`.
    pub fn balance_of(&self, a: AccountId) -> (r: u64)
        ensures
            r as nat == self.balance(a),
    {
        match self.find(a) {
            Some(i) => {
                proof {
                    lemma_balance_at(self.entries@, a, i as int);
                }
                self.entries[i].1
            },
            None => {
                proof {
                    lemma_balance_absent(self.entries@, a);
                }
                0
            },
        }
    }

    /// Creates `amount` new units on `a`'s account. Fails with
    /// `ArithmeticFault` — and changes nothing — exactly when the new total
    /// supply would not be representable; the recipient's balance can never
    /// overflow before the supply does.
    pub fn mint(&mut self, a: AccountId, amount: u64) -> (r: Result<(), Error>)
        requires
            old(self).wf(),
        ensures
            final(self).wf(),
            r == (if old(self).supply() + amount > u64::MAX {
                Err::<(), Error>(Error::ArithmeticFault)
            } else {
                Ok::<(), Error>(())
            }),
            r is Err ==> *final(self) == *old(self),
            r is Ok ==> final(self).balance(a) == old(self).balance(a) + amount,
            r is Ok ==> forall|b: AccountId|
                b != a ==> final(self).balance(b) == old(self).balance(b),
            r is Ok ==> final(self).supply() == old(self).supply() + amount,
            final(self).spec_name() == old(self).spec_name(),
            final(self).spec_symbol() == old(self).spec_symbol(),
            final(self).spec_decimals() == old(self).spec_decimals(),
    {
        let new_supply = match self.total_supply.checked_add(amount) {
            None => {
                return Err(Error::ArithmeticFault);
            },
            Some(t) => t,
        };
        let ghost before = self.entries@;
        match self.find(a) {
            Some(i) => {
                proof {
                    lemma_balance_at(before, a, i as int);
                    lemma_balance_le_sum(before, a);
                }
                let cur = self.entries[i].1;
                self.entries.set(i, (a, cur + amount));
                self.total_supply = new_supply;
                proof {
                    assert(before[i as int].0 == a);
                    assert(self.entries@ =~= before.update(i as int, (before[i as int].0, (cur + amount) as u64)));
                    assert forall|b: AccountId|
                        b != a implies balance_in(self.entries@, b) == balance_in(before, b) by {
                        lemma_update_balance(before, i as int, (cur + amount) as u64, b);
                    }
                    lemma_update_balance(before, i as int, (cur + amount) as u64, a);
                    lemma_update_sum(before, i as int, (cur + amount) as u64);
                    lemma_update_distinct(before, i as int, (cur + amount) as u64);
                }
                Ok(())
            },
            None => {
                proof {
                    lemma_balance_absent(before, a);
                }
                self.entries.push((a, amount));
                self.total_supply = new_supply;
                proof {
                    assert forall|b: AccountId|
                        b != a implies balance_in(self.entries@, b) == balance_in(before, b) by {
                        lemma_push_balance(before, (a, amount), b);
                    }
                    lemma_push_balance(before, (a, amount), a);
                    lemma_push_sum(before, (a, amount));
                    lemma_push_distinct(before, (a, amount));
                }
                Ok(())
            },
        }
    }

    /// Destroys `amount` units on `a`'s account. Fails with
    /// `ArithmeticFault` — and changes nothing — exactly when `a` holds less
    /// than `amount`; the supply can never underflow before the balance does.
    pub fn burn(&mut self, a: AccountId, amount: u64) -> (r: Result<(), Error>)
        requires
            old(self).wf(),
        ensures
            final(self).wf(),
            r == (if old(self).balance(a) < amount {
                Err::<(), Error>(Error::ArithmeticFault)
            } else {
                Ok::<(), Error>(())
            }),
            r is Err ==> *final(self) == *old(self),
            r is Ok ==> final(self).balance(a) == old(self).balance(a) - amount,
            r is Ok ==> forall|b: AccountId|
                b != a ==> final(self).balance(b) == old(self).balance(b),
            r is Ok ==> final(self).supply() == old(self).supply() - amount,
            final(self).spec_name() == old(self).spec_name(),
            final(self).spec_symbol() == old(self).spec_symbol(),
            final(self).spec_decimals() == old(self).spec_decimals(),
    {
        let ghost before = self.entries@;
        match self.find(a) {
            Some(i) => {
                proof {
                    lemma_balance_at(before, a, i as int);
                    lemma_balance_le_sum(before, a);
                }
                let cur = self.entries[i].1;
                if cur < amount {
                    return Err(Error::ArithmeticFault);
                }
                self.entries.set(i, (a, cur - amount));
                self.total_supply = self.total_supply - amount;
                proof {
                    assert(before[i as int].0 == a);
                    assert(self.entries@ =~= before.update(i as int, (before[i as int].0, (cur - amount) as u64)));
                    assert forall|b: AccountId|
                        b != a implies balance_in(self.entries@, b) == balance_in(before, b) by {
                        lemma_update_balance(before, i as int, (cur - amount) as u64, b);
                    }
                    lemma_update_balance(before, i as int, (cur - amount) as u64, a);
                    lemma_update_sum(before, i as int, (cur - amount) as u64);
                    lemma_update_distinct(before, i as int, (cur - amount) as u64);
                }
                Ok(())
            },
            None => {
                proof {
                    lemma_balance_absent(before, a);
                }
                if amount > 0 {
                    return Err(Error::ArithmeticFault);
                }
                Ok(())
            },
        }
    }

    /// The recorded total supply.
    pub fn total_supply(&self) -> (r: u64)
        ensures
            r as nat == self.supply(),
    {
        self.total_supply
    }
}

} // verus!
