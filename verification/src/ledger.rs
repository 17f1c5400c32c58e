use vstd::prelude::*;
use crate::account::AccountId;
use crate::error::Error;
use crate::events::Event;
use crate::events::PointsIssued;
use crate::events::RewardRedeemed;
use crate::events::lemma_sum_redeemed_push;
use crate::events::sum_redeemed;
use crate::store::BalanceStore;

verus! {

/// Everything an outside observer can know of the ledger: who administers
/// it, how much was ever redeemed, the balances and supply of the backing
/// store, and the event log.
#[verifier::ext_equal]
pub ghost struct LedgerView {
    pub name: String,
    pub symbol: String,
    pub decimals: u8,
    pub admin: AccountId,
    pub total_redeemed: nat,
    pub supply: nat,
    pub balances: Map<AccountId, nat>,
    pub log: Seq<Event>,
}

/// The loyalty ledger: a single admin may issue points to any account, any
/// account holder may redeem their own, and the total ever redeemed is kept
/// alongside an append-only event log with one entry per successful mutation.
pub struct CasperFidelity {
    pub token: BalanceStore,
    pub admin: AccountId,
    pub total_redeemed: u64,
    pub log: Vec<Event>,
}

impl View for CasperFidelity {
    type V = LedgerView;

    open spec fn view(&self) -> LedgerView {
        LedgerView {
            name: self.token.spec_name(),
            symbol: self.token.spec_symbol(),
            decimals: self.token.spec_decimals(),
            admin: self.admin,
            total_redeemed: self.total_redeemed as nat,
            supply: self.token.supply(),
            balances: self.token.balances(),
            log: self.log@,
        }
    }
}

/// The ledger invariant: the running counter equals the sum of the amounts
/// of every redemption event ever logged.
pub open spec fn inv(v: LedgerView) -> bool {
    v.total_redeemed == sum_redeemed(v.log)
}

/// What `issue_points` answers: `Unauthorized` for every caller but the
/// admin, `ArithmeticFault` when the new supply would not be representable,
/// and success otherwise.
pub open spec fn issue_outcome(
    v: LedgerView,
    customer: AccountId,
    amount: u64,
    caller: AccountId,
) -> Result<(), Error> {
    if caller != v.admin {
        Err(Error::Unauthorized)
    } else if v.supply + amount > u64::MAX {
        Err(Error::ArithmeticFault)
    } else {
        Ok(())
    }
}

/// The ledger after `issue_points`: on success the customer's balance and
/// the supply grow by `amount` and one `PointsIssued` event is appended; on
/// failure nothing moves.
pub open spec fn issue_transition(
    v: LedgerView,
    customer: AccountId,
    amount: u64,
    caller: AccountId,
    now: u64,
) -> LedgerView {
    if issue_outcome(v, customer, amount, caller) is Ok {
        LedgerView {
            supply: (v.supply + amount) as nat,
            balances: v.balances.insert(customer, (v.balances[customer] + amount) as nat),
            log: v.log.push(Event::PointsIssued(PointsIssued { customer, amount, timestamp: now })),
            ..v
        }
    } else {
        v
    }
}

/// What `redeem_reward` answers: `InsufficientBalance` when the caller holds
/// less than `amount`, `ArithmeticFault` when the counter would leave the
/// representable range, and success otherwise.
pub open spec fn redeem_outcome(v: LedgerView, amount: u64, caller: AccountId) -> Result<
    (),
    Error,
> {
    if v.balances[caller] < amount {
        Err(Error::InsufficientBalance)
    } else if v.total_redeemed + amount > u64::MAX {
        Err(Error::ArithmeticFault)
    } else {
        Ok(())
    }
}

/// The ledger after `redeem_reward`: on success the caller's balance and the
/// supply shrink by `amount`, the counter grows by it, and one
/// `RewardRedeemed` event is appended; on failure nothing moves.
pub open spec fn redeem_transition(
    v: LedgerView,
    amount: u64,
    reward_id: String,
    caller: AccountId,
    now: u64,
) -> LedgerView {
    if redeem_outcome(v, amount, caller) is Ok {
        LedgerView {
            total_redeemed: (v.total_redeemed + amount) as nat,
            supply: (v.supply - amount) as nat,
            balances: v.balances.insert(caller, (v.balances[caller] - amount) as nat),
            log: v.log.push(
                Event::RewardRedeemed(
                    RewardRedeemed { user: caller, amount, reward_id, timestamp: now },
                ),
            ),
            ..v
        }
    } else {
        v
    }
}

impl CasperFidelity {
    /// The ledger is well formed: the backing store is, and the counter
    /// equals the sum of every redemption ever logged.
    pub open spec fn wf(self) -> bool {
        &&& self.token.wf()
        &&& inv(self@)
    }

    /// Constructs the ledger: the backing store holds `initial_supply` on
    /// `initial_holder`'s account, the caller becomes the one fixed admin,
    /// nothing is redeemed yet, and the log is empty. Runs once per ledger;
    /// no event is logged for it.
    pub fn init(
        name: String,
        symbol: String,
        decimals: u8,
        initial_supply: u64,
        initial_holder: AccountId,
        caller: AccountId,
    ) -> (s: CasperFidelity)
        ensures
            s.wf(),
            s@.name == name,
            s@.symbol == symbol,
            s@.decimals == decimals,
            s@.admin == caller,
            s@.total_redeemed == 0,
            s@.supply == initial_supply as nat,
            s@.balances[initial_holder] == initial_supply as nat,
            forall|a: AccountId| a != initial_holder ==> s@.balances[a] == 0,
            s@.log =~= Seq::<Event>::empty(),
    {
        let token = BalanceStore::new(name, symbol, decimals, initial_supply, initial_holder);
        let ledger = CasperFidelity { token, admin: caller, total_redeemed: 0, log: Vec::new() };
        proof {
            assert(sum_redeemed(ledger.log@) == 0);
        }
        ledger
    }

    /// Credits `amount` points to `customer`, admin only. Answers exactly
    /// `issue_outcome` and moves the ledger exactly to `issue_transition`:
    /// a rejected call changes nothing and logs nothing.
    pub fn issue_points(
        &mut self,
        customer: AccountId,
        amount: u64,
        caller: AccountId,
        now: u64,
    ) -> (r: Result<(), Error>)
        requires
            old(self).wf(),
        ensures
            final(self).wf(),
            r == issue_outcome(old(self)@, customer, amount, caller),
            final(self)@ =~= issue_transition(old(self)@, customer, amount, caller, now),
    {
        if caller != self.admin {
            return Err(Error::Unauthorized);
        }
        match self.token.mint(customer, amount) {
            Err(e) => {
                return Err(e);
            },
            Ok(()) => {},
        }
        let ev = Event::PointsIssued(PointsIssued { customer, amount, timestamp: now });
        proof {
            lemma_sum_redeemed_push(self.log@, ev);
        }
        self.log.push(ev);
        proof {
            assert(self.token.balances() =~= old(self).token.balances().insert(
                customer,
                (old(self)@.balances[customer] + amount) as nat,
            ));
        }
        Ok(())
    }

    /// Destroys `amount` of the caller's own points against the opaque
    /// `reward_id`. Answers exactly `redeem_outcome` and moves the ledger
    /// exactly to `redeem_transition`: the balance check, the burn, the
    /// counter update, and the event append happen as one unit or not at all.
    pub fn redeem_reward(
        &mut self,
        amount: u64,
        reward_id: String,
        caller: AccountId,
        now: u64,
    ) -> (r: Result<(), Error>)
        requires
            old(self).wf(),
        ensures
            final(self).wf(),
            r == redeem_outcome(old(self)@, amount, caller),
            final(self)@ =~= redeem_transition(old(self)@, amount, reward_id, caller, now),
    {
        let bal = self.token.balance_of(caller);
        if bal < amount {
            return Err(Error::InsufficientBalance);
        }
        let new_total = match self.total_redeemed.checked_add(amount) {
            None => {
                return Err(Error::ArithmeticFault);
            },
            Some(t) => t,
        };
        match self.token.burn(caller, amount) {
            // the caller holds at least `amount`, so the burn cannot fault
            Err(_) => unreached(),
            Ok(()) => {},
        }
        self.total_redeemed = new_total;
        let ev = Event::RewardRedeemed(
            RewardRedeemed { user: caller, amount, reward_id, timestamp: now },
        );
        proof {
            lemma_sum_redeemed_push(self.log@, ev);
        }
        self.log.push(ev);
        proof {
            assert(self.token.balances() =~= old(self).token.balances().insert(
                caller,
                (old(self)@.balances[caller] - amount) as nat,
            ));
        }
        Ok(())
    }

    /// The total amount ever redeemed: a pure read, never failing. On a well
    /// formed ledger it equals the sum of every redemption ever logged.
    pub fn get_total_burned(&self) -> (r: u64)
        ensures
            r == self.total_redeemed,
            self.wf() ==> r as nat == sum_redeemed(self.log@),
    {
        self.total_redeemed
    }

    /// The current balance of `a` in the backing store.
    pub fn balance_of(&self, a: AccountId) -> (r: u64)
        ensures
            r as nat == self@.balances[a],
    {
        self.token.balance_of(a)
    }
}

/// Issuing preserves the ledger invariant: no redemption event is appended
/// and the counter does not move.
pub proof fn lemma_issue_preserves_inv(
    v: LedgerView,
    customer: AccountId,
    amount: u64,
    caller: AccountId,
    now: u64,
)
    requires
        inv(v),
    ensures
        inv(issue_transition(v, customer, amount, caller, now)),
{
    if issue_outcome(v, customer, amount, caller) is Ok {
        lemma_sum_redeemed_push(
            v.log,
            Event::PointsIssued(PointsIssued { customer, amount, timestamp: now }),
        );
    }
}

/// Redeeming preserves the ledger invariant: the counter and the sum of the
/// logged redemption amounts move together, by `amount`, or not at all.
pub proof fn lemma_redeem_preserves_inv(
    v: LedgerView,
    amount: u64,
    reward_id: String,
    caller: AccountId,
    now: u64,
)
    requires
        inv(v),
    ensures
        inv(redeem_transition(v, amount, reward_id, caller, now)),
{
    if redeem_outcome(v, amount, caller) is Ok {
        lemma_sum_redeemed_push(
            v.log,
            Event::RewardRedeemed(RewardRedeemed { user: caller, amount, reward_id, timestamp: now }),
        );
    }
}

/// A non-admin caller is always turned away with `Unauthorized`, and the
/// ledger — balances, counter, admin, log — is exactly as before.
pub proof fn lemma_non_admin_issue_rejected(
    v: LedgerView,
    customer: AccountId,
    amount: u64,
    caller: AccountId,
    now: u64,
)
    requires
        caller != v.admin,
    ensures
        issue_outcome(v, customer, amount, caller) == Err::<(), Error>(Error::Unauthorized),
        issue_transition(v, customer, amount, caller, now) == v,
{
}

/// A redemption that would overdraw the caller is turned away with
/// `InsufficientBalance` and changes nothing; balances are naturals, so no
/// reachable ledger state holds a negative balance.
pub proof fn lemma_overdraw_redeem_rejected(
    v: LedgerView,
    amount: u64,
    reward_id: String,
    caller: AccountId,
    now: u64,
)
    requires
        v.balances[caller] < amount,
    ensures
        redeem_outcome(v, amount, caller) == Err::<(), Error>(Error::InsufficientBalance),
        redeem_transition(v, amount, reward_id, caller, now) == v,
{
}

/// The admin is fixed at initialization: no operation, successful or not,
/// moves it.
pub proof fn lemma_admin_never_changes(
    v: LedgerView,
    customer: AccountId,
    amount: u64,
    reward_id: String,
    caller: AccountId,
    now: u64,
)
    ensures
        issue_transition(v, customer, amount, caller, now).admin == v.admin,
        redeem_transition(v, amount, reward_id, caller, now).admin == v.admin,
{
}

/// The counter of redeemed points never decreases: issuing leaves it alone
/// and redeeming can only raise it.
pub proof fn lemma_total_redeemed_monotone(
    v: LedgerView,
    customer: AccountId,
    amount: u64,
    reward_id: String,
    caller: AccountId,
    now: u64,
)
    ensures
        issue_transition(v, customer, amount, caller, now).total_redeemed == v.total_redeemed,
        redeem_transition(v, amount, reward_id, caller, now).total_redeemed >= v.total_redeemed,
{
}

/// The ledger after `n` repetitions of one and the same redemption request.
pub open spec fn redeem_repeated(
    v: LedgerView,
    amount: u64,
    reward_id: String,
    caller: AccountId,
    now: u64,
    n: nat,
) -> LedgerView
    decreases n,
{
    if n == 0 {
        v
    } else {
        redeem_transition(
            redeem_repeated(v, amount, reward_id, caller, now, (n - 1) as nat),
            amount,
            reward_id,
            caller,
            now,
        )
    }
}

/// Failure is idempotent: an overdrawing redemption, repeated any number of
/// times, never changes the ledger and never logs an event.
pub proof fn lemma_failed_redeem_idempotent(
    v: LedgerView,
    amount: u64,
    reward_id: String,
    caller: AccountId,
    now: u64,
    n: nat,
)
    requires
        v.balances[caller] < amount,
    ensures
        redeem_repeated(v, amount, reward_id, caller, now, n) == v,
    decreases n,
{
    if n > 0 {
        lemma_failed_redeem_idempotent(v, amount, reward_id, caller, now, (n - 1) as nat);
    }
}

} // verus!
