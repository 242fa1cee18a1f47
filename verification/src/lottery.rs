//! The lottery state machine: configuration, sale ledger, lifecycle, and the
//! pseudo-random engine that allocates ticket identifiers.
//!
//! The host environment resolves the caller's identity, the amount tendered
//! with a purchase, and the current time; each operation here takes those as
//! plain values. Retirement policy: the set of retired identifiers is carried
//! in the state and consulted by the allocator, but no operation inserts into
//! it, so identifiers may repeat across rounds; the well-formedness invariant
//! records that the set stays empty.

use vstd::prelude::*;

use crate::digits::{has_distinct_digits, nth_digit, pow10, count_trues};
use crate::digits::{
    lemma_count_all_false, lemma_count_all_true, lemma_count_update_true, lemma_digit_low,
    lemma_digit_shift, lemma_pow10_increases, lemma_pow10_values,
};
use std::collections::HashMap;
use std::collections::HashSet;

verus! {

broadcast use vstd::std_specs::hash::group_hash_axioms;

/// The identity of a purchasing account, as resolved by the host environment.
pub type AccountId = u64;

/// An amount of currency in its smallest unit.
pub type Balance = u128;

/// A point in time, in the host environment's time unit.
pub type Timestamp = u64;

/// The ways an operation can fail.
#[derive(Debug, Clone, Copy, PartialEq, Eq)]
pub enum Error {
    /// Declared for callers that cannot cover a requested transfer; no
    /// operation of this crate raises it.
    InsufficientBalance,
    /// The amount tendered with a purchase is below the ticket price.
    InsufficientAllowance,
    /// Declared for sale-window expiry; window enforcement is not part of the
    /// baseline behaviour, so no operation raises it.
    LotteryTimeExpired,
    /// A draw was attempted while no ticket of the current round is sold.
    EmptyDraw,
}

/// One step of the linear-congruential recurrence on a 32-bit seed, with
/// multiplier 1664525 and increment 1013904223.
pub open spec fn lcg_next(s: nat) -> nat {
    (1664525 * s + 1013904223) % 0x1_0000_0000
}

/// `n` steps of the linear-congruential recurrence.
pub open spec fn lcg_iter(s: nat, n: nat) -> nat
    decreases n,
{
    if n == 0 {
        s
    } else {
        lcg_next(lcg_iter(s, (n - 1) as nat))
    }
}

/// The digit the linear probe settles on: the first position at or cyclically
/// after `cand` that is not yet taken; `fuel` bounds the probe.
pub open spec fn probe_digit(used: Seq<bool>, cand: nat, fuel: nat) -> nat
    decreases fuel,
{
    if fuel == 0 {
        cand
    } else if !used[cand as int] {
        cand
    } else {
        probe_digit(used, ((cand + 1) % 10) as nat, (fuel - 1) as nat)
    }
}

/// One derivation round on the engine state `(seed, taken digits, number)`:
/// one pseudo-random draw is reduced modulo ten, probed forward to a digit
/// not yet taken, marked as taken, and appended to the number.
pub open spec fn derive_round(state: (nat, Seq<bool>, nat)) -> (nat, Seq<bool>, nat) {
    let seed2 = lcg_next(state.0);
    let digit = probe_digit(state.1, seed2 % 10, 10);
    (seed2, state.1.update(digit as int, true), state.2 * 10 + digit)
}

/// The engine state after `rounds` derivation rounds from `seed`.
pub open spec fn derive_state(seed: nat, rounds: nat) -> (nat, Seq<bool>, nat)
    decreases rounds,
{
    if rounds == 0 {
        (seed, Seq::new(10, |j: int| false), 0)
    } else {
        derive_round(derive_state(seed, (rounds - 1) as nat))
    }
}

/// The ticket identifier the derivation yields from `seed`.
pub open spec fn derived_id(seed: nat) -> nat {
    derive_state(seed, 6).2
}

/// The probe settles on the first free position: if the `k` positions at and
/// cyclically after `cand` are taken and the position `k` steps after `cand`
/// is free, the probe returns that position.
proof fn lemma_probe_first_free(used: Seq<bool>, cand: nat, k: nat, fuel: nat)
    requires
        used.len() == 10,
        cand < 10,
        k < 10,
        k < fuel,
        forall|j: int| 0 <= j < k ==> used[#[trigger] ((cand as int + j) % 10)],
        !used[((cand + k) % 10) as int],
    ensures
        probe_digit(used, cand, fuel) == (cand + k) % 10,
    decreases k,
{
    if k == 0 {
        vstd::arithmetic::div_mod::lemma_small_mod(cand, 10);
    } else {
        assert((cand as int + 0) % 10 == cand as int) by {
            vstd::arithmetic::div_mod::lemma_small_mod(cand, 10);
        }
        assert(used[cand as int]);
        let cand2 = ((cand + 1) % 10) as nat;
        assert forall|j: int| 0 <= j < k - 1 implies used[#[trigger] ((cand2 as int + j) % 10)] by {
            assert((cand2 as int + j) % 10 == (cand as int + (j + 1)) % 10) by {
                vstd::arithmetic::div_mod::lemma_add_mod_noop(cand as int + 1, j, 10);
                vstd::arithmetic::div_mod::lemma_small_mod(j as nat, 10);
            }
        }
        assert((cand2 as int + (k - 1)) % 10 == (cand as int + k) % 10) by {
            vstd::arithmetic::div_mod::lemma_add_mod_noop(cand as int + 1, k - 1, 10);
            vstd::arithmetic::div_mod::lemma_small_mod((k - 1) as nat, 10);
        }
        lemma_probe_first_free(used, cand2, (k - 1) as nat, (fuel - 1) as nat);
    }
}

/// The lottery's whole state: immutable configuration, the current round's
/// ledger, the retired-identifier set, and the pseudo-random seed.
pub struct Lottery {
    /// Price of one ticket, fixed at construction.
    pub ticket_price: Balance,
    /// The most recently issued ticket identifier of each owner.
    pub tickets: HashMap<AccountId, u32>,
    /// Identifiers that must not be issued again. Under the retirement policy
    /// of this crate nothing is ever inserted here; see the module notes.
    pub old_tickets: HashSet<u32>,
    /// The time of the first sale of the current round; `None` while no round
    /// is active.
    pub start_time: Option<Timestamp>,
    /// Intended length of a sale round, fixed at construction. Expiry is not
    /// enforced by any operation.
    pub duration: Timestamp,
    /// All sales of the current round, in purchase order.
    pub tickets_t: Vec<(AccountId, u32)>,
    /// The linear-congruential seed; every pseudo-random draw advances it.
    pub seed: u32,
}

impl Lottery {
    /// The retired-identifier set is empty: nothing retires identifiers, so
    /// every round allocates from the full distinct-digit space.
    pub open spec fn retirement_policy_holds(self) -> bool {
        self.old_tickets@ == Set::<u32>::empty()
    }

    /// A round is active exactly while the current round has sold tickets.
    pub open spec fn window_matches_record(self) -> bool {
        self.start_time is None <==> self.tickets_t@.len() == 0
    }

    /// Every identifier in the sale record has six pairwise-distinct decimal
    /// digits.
    pub open spec fn record_ids_well_formed(self) -> bool {
        forall|k: int|
            0 <= k < self.tickets_t@.len() ==> has_distinct_digits(
                #[trigger] self.tickets_t@[k].1 as nat,
            )
    }

    /// Well-formedness: established by the constructor and preserved by every
    /// operation.
    pub open spec fn wf(self) -> bool {
        &&& self.retirement_policy_holds()
        &&& self.window_matches_record()
        &&& self.record_ids_well_formed()
    }

    /// The sale ledger, the lifecycle state and the configuration of `self`
    /// and `other` agree; only the pseudo-random seed may differ.
    pub open spec fn ledger_unchanged(self, other: Lottery) -> bool {
        &&& self.ticket_price == other.ticket_price
        &&& self.tickets@ == other.tickets@
        &&& self.old_tickets@ == other.old_tickets@
        &&& self.start_time == other.start_time
        &&& self.duration == other.duration
        &&& self.tickets_t@ == other.tickets_t@
    }

    /// The state transition of an accepted purchase: `post` is `pre` with the
    /// sale window opened at `now` if no round was active, a fresh
    /// distinct-digit identifier appended to the sale record under `caller`,
    /// and that identifier made `caller`'s latest ticket. Configuration and
    /// the retired set are untouched; the seed is left unconstrained, as it
    /// advances with every pseudo-random draw.
    pub open spec fn purchase_accepted(
        pre: Lottery,
        post: Lottery,
        caller: AccountId,
        now: Timestamp,
    ) -> bool {
        &&& post.tickets_t@.len() == pre.tickets_t@.len() + 1
        &&& post.tickets_t@ == pre.tickets_t@.push(post.tickets_t@.last())
        &&& post.tickets_t@.last().0 == caller
        &&& has_distinct_digits(post.tickets_t@.last().1 as nat)
        &&& !pre.old_tickets@.contains(post.tickets_t@.last().1)
        &&& post.tickets@ == pre.tickets@.insert(caller, post.tickets_t@.last().1)
        &&& post.start_time == if pre.start_time is Some {
            pre.start_time
        } else {
            Some(now)
        }
        &&& post.old_tickets@ == pre.old_tickets@
        &&& post.ticket_price == pre.ticket_price
        &&& post.duration == pre.duration
    }

    /// Creates a lottery with the given ticket price and round duration and
    /// an empty ledger; no round is active yet.
    pub fn new(ticket_price: Balance, duration: Timestamp) -> (lottery: Lottery)
        ensures
            lottery.wf(),
            lottery.ticket_price == ticket_price,
            lottery.duration == duration,
            lottery.tickets@ == Map::<AccountId, u32>::empty(),
            lottery.old_tickets@ == Set::<u32>::empty(),
            lottery.tickets_t@ == Seq::<(AccountId, u32)>::empty(),
            lottery.start_time is None,
            lottery.seed == 0,
    {
        Lottery {
            ticket_price,
            tickets: HashMap::new(),
            old_tickets: HashSet::new(),
            tickets_t: Vec::new(),
            start_time: None,
            duration,
            seed: 0,
        }
    }

    /// Advances the seed by one step of the linear-congruential recurrence
    /// `seed' = 1664525 * seed + 1013904223 (mod 2^32)` and returns the new
    /// seed.
    pub fn rand(&mut self) -> (r: u32)
        ensures
            r as nat == lcg_next(old(self).seed as nat),
            final(self).seed == r,
            old(self).ledger_unchanged(*final(self)),
    {
        let product: u64 = 1664525u64 * (self.seed as u64) + 1013904223u64;
        let next: u32 = (product % 0x1_0000_0000u64) as u32;
        self.seed = next;
        next
    }

    /// Derives a ticket identifier whose six decimal digits are pairwise
    /// distinct: six pseudo-random draws, each reduced modulo ten and then
    /// linearly probed past the digits already taken within this derivation,
    /// are accumulated into a base-ten number. The result is a function of
    /// the seed alone — `derived_id` names it exactly — and is not uniformly
    /// distributed over any fixed range.
    #[verifier::loop_isolation(false)]
    pub fn generate_random_unique_digits(&mut self) -> (r: u32)
        ensures
            r < 1000000,
            has_distinct_digits(r as nat),
            r as nat == derived_id(old(self).seed as nat),
            final(self).seed as nat == lcg_iter(old(self).seed as nat, 6),
            old(self).ledger_unchanged(*final(self)),
    {
        let mut num: u32 = 0;
        let mut used: Vec<bool> = Vec::new();
        let mut fill: usize = 0;
        while fill < 10
            invariant
                used.len() == fill,
                fill <= 10,
                forall|j: int| 0 <= j < fill ==> !used@[j],
            decreases 10 - fill,
        {
            used.push(false);
            fill = fill + 1;
        }
        proof {
            lemma_count_all_false(used@);
            lemma_pow10_values();
            assert(used@ =~= Seq::new(10, |j: int| false));
        }
        for i in 0..6usize
            invariant
                used.len() == 10,
                count_trues(used@) == i,
                num < pow10(i as nat),
                forall|p: int|
                    0 <= p < i ==> used@[#[trigger] nth_digit(num as nat, p as nat) as int],
                forall|p: int, q: int|
                    0 <= p < q < i ==> #[trigger] nth_digit(num as nat, p as nat)
                        != #[trigger] nth_digit(num as nat, q as nat),
                self.seed as nat == lcg_iter(old(self).seed as nat, i as nat),
                derive_state(old(self).seed as nat, i as nat).0 == self.seed as nat,
                derive_state(old(self).seed as nat, i as nat).1 == used@,
                derive_state(old(self).seed as nat, i as nat).2 == num as nat,
                old(self).ledger_unchanged(*self),
        {
            let ghost pre_state = derive_state(old(self).seed as nat, i as nat);
            let raw: u32 = self.rand();
            proof {
                assert(lcg_iter(old(self).seed as nat, (i + 1) as nat)
                    == lcg_next(lcg_iter(old(self).seed as nat, i as nat)));
            }
            let start: usize = (raw % 10) as usize;
            let mut d: usize = start;
            let mut koff: usize = 0;
            let mut found: bool = false;
            let mut off: usize = 0;
            while off < 10
                invariant
                    off <= 10,
                    !found ==> forall|k: int|
                        0 <= k < off ==> used@[#[trigger] ((start as int + k) % 10)],
                    found ==> d < 10 && !used@[d as int],
                    found ==> koff < 10 && d as int == (start as int + koff as int) % 10,
                    found ==> forall|k: int|
                        0 <= k < koff ==> used@[#[trigger] ((start as int + k) % 10)],
                decreases 10 - off,
            {
                if !found {
                    let cand: usize = (start + off) % 10;
                    if !used[cand] {
                        d = cand;
                        koff = off;
                        found = true;
                    }
                }
                off = off + 1;
            }
            if !found {
                proof {
                    assert forall|j: int| 0 <= j < 10 implies used@[j] by {
                        let k: int = if j >= start as int {
                            j - start as int
                        } else {
                            j + 10 - start as int
                        };
                        assert(0 <= k < 10);
                        assert(start as int + k == j || start as int + k == j + 10);
                        assert((start as int + k) % 10 == j);
                    }
                    lemma_count_all_true(used@);
                    assert(false);
                }
            }
            let ghost prev_used = used@;
            let ghost prev_num: nat = num as nat;
            proof {
                assert(pow10((i + 1) as nat) == 10 * pow10(i as nat));
                assert(pow10(i as nat) <= pow10(5)) by {
                    lemma_pow10_increases(i as nat, 5);
                }
                lemma_probe_first_free(prev_used, start as nat, koff as nat, 10);
            }
            used[d] = true;
            num = num * 10 + (d as u32);
            proof {
                assert(derive_state(old(self).seed as nat, (i + 1) as nat)
                    == derive_round(pre_state));
                assert(derive_round(pre_state).0 == self.seed as nat);
                assert(derive_round(pre_state).1 == used@) by {
                    assert(probe_digit(prev_used, (raw % 10) as nat, 10) == d as int);
                    assert(prev_used.update(d as int, true) =~= used@);
                }
                assert(derive_round(pre_state).2 == num as nat);
                lemma_count_update_true(prev_used, d as int);
                lemma_digit_low(prev_num, d as nat);
                assert forall|p: int|
                    0 <= p < i + 1 implies used@[
                    #[trigger] nth_digit(num as nat, p as nat) as int] by {
                    if p == 0 {
                        assert(nth_digit(num as nat, 0) == d as nat);
                    } else {
                        lemma_digit_shift(prev_num, d as nat, (p - 1) as nat);
                        assert(nth_digit(num as nat, p as nat)
                            == nth_digit(prev_num, (p - 1) as nat));
                    }
                }
                assert forall|p: int, q: int|
                    0 <= p < q < i + 1 implies #[trigger] nth_digit(num as nat, p as nat)
                        != #[trigger] nth_digit(num as nat, q as nat) by {
                    lemma_digit_shift(prev_num, d as nat, (q - 1) as nat);
                    assert(nth_digit(num as nat, q as nat)
                        == nth_digit(prev_num, (q - 1) as nat));
                    if p == 0 {
                        assert(nth_digit(num as nat, 0) == d as nat);
                        assert(prev_used[nth_digit(prev_num, (q - 1) as nat) as int]);
                        assert(!prev_used[d as int]);
                    } else {
                        lemma_digit_shift(prev_num, d as nat, (p - 1) as nat);
                        assert(nth_digit(num as nat, p as nat)
                            == nth_digit(prev_num, (p - 1) as nat));
                    }
                }
            }
        }
        proof {
            assert(pow10(6) == 1000000) by {
                lemma_pow10_values();
            }
        }
        num
    }

    /// Allocates a fresh ticket identifier: derives distinct-digit values
    /// until one is found that is not in the retired set. The retry has no
    /// progress guarantee in general; under this crate's retirement policy
    /// the retired set is empty, so the first derivation is accepted.
    #[verifier::loop_isolation(false)]
    pub fn generate_ticket_id(&mut self) -> (r: u32)
        requires
            old(self).retirement_policy_holds(),
        ensures
            r < 1000000,
            has_distinct_digits(r as nat),
            r as nat == derived_id(old(self).seed as nat),
            !old(self).old_tickets@.contains(r),
            final(self).seed as nat == lcg_iter(old(self).seed as nat, 6),
            old(self).ledger_unchanged(*final(self)),
    {
        let mut ticket_number: u32 = self.generate_random_unique_digits();
        while self.old_tickets.contains(&ticket_number)
            invariant
                ticket_number < 1000000,
                has_distinct_digits(ticket_number as nat),
                ticket_number as nat == derived_id(old(self).seed as nat),
                self.seed as nat == lcg_iter(old(self).seed as nat, 6),
                old(self).ledger_unchanged(*self),
            decreases 0int,
        {
            ticket_number = self.generate_random_unique_digits();
        }
        ticket_number
    }

    /// Records a purchase by `caller` who tendered `transferred_balance` at
    /// time `now`. A tender below the ticket price is rejected with
    /// `Error::InsufficientAllowance` and changes nothing. An accepted
    /// purchase opens the sale window at `now` if no round was active,
    /// allocates a fresh distinct-digit identifier, appends the
    /// `(caller, identifier)` pair to the sale record, and makes the
    /// identifier the caller's latest ticket.
    pub fn buy_ticket(
        &mut self,
        caller: AccountId,
        transferred_balance: Balance,
        now: Timestamp,
    ) -> (r: Result<(), Error>)
        requires
            old(self).wf(),
        ensures
            final(self).wf(),
            transferred_balance < old(self).ticket_price ==> {
                &&& r == Result::<(), Error>::Err(Error::InsufficientAllowance)
                &&& *final(self) == *old(self)
            },
            transferred_balance >= old(self).ticket_price ==> {
                &&& r == Result::<(), Error>::Ok(())
                &&& Lottery::purchase_accepted(*old(self), *final(self), caller, now)
                &&& final(self).tickets_t@.last().1 as nat == derived_id(old(self).seed as nat)
                &&& final(self).seed as nat == lcg_iter(old(self).seed as nat, 6)
            },
    {
        if transferred_balance < self.ticket_price {
            return Err(Error::InsufficientAllowance);
        }
        if self.start_time.is_none() {
            self.start_time = Some(now);
        }
        let ticket_id: u32 = self.generate_ticket_id();
        self.tickets.insert(caller, ticket_id);
        self.tickets_t.push((caller, ticket_id));
        Ok(())
    }

    /// Returns the full current-round sale record in purchase order; the
    /// state is left as it was.
    #[verifier::loop_isolation(false)]
    pub fn get_all_tickets(&mut self) -> (r: Vec<(AccountId, u32)>)
        ensures
            r@ == old(self).tickets_t@,
            *final(self) == *old(self),
    {
        let mut out: Vec<(AccountId, u32)> = Vec::new();
        let mut idx: usize = 0;
        while idx < self.tickets_t.len()
            invariant
                idx <= self.tickets_t.len(),
                out@ == self.tickets_t@.take(idx as int),
                *self == *old(self),
            decreases self.tickets_t.len() - idx,
        {
            let pair = self.tickets_t[idx];
            out.push(pair);
            proof {
                assert(out@ =~= self.tickets_t@.take(idx + 1));
            }
            idx = idx + 1;
        }
        proof {
            assert(out@ =~= self.tickets_t@);
        }
        out
    }

    /// The most recently issued ticket identifier of `owner`, if `owner` has
    /// purchased in any round.
    pub fn latest_ticket(&self, owner: AccountId) -> (r: Option<u32>)
        ensures
            r == if self.tickets@.contains_key(owner) {
                Some(self.tickets@[owner])
            } else {
                None::<u32>
            },
    {
        match self.tickets.get(&owner) {
            Some(id) => Some(*id),
            None => None,
        }
    }

    /// Whether a sale round is currently active, that is, whether the sale
    /// window has opened and the draw has not yet happened.
    pub fn is_active(&self) -> (r: bool)
        ensures
            r == (self.start_time is Some),
    {
        self.start_time.is_some()
    }

    /// Draws the winner of the current round: one derivation of the engine,
    /// reduced modulo the sale record's length, selects a previously sold
    /// `(owner, identifier)` pair, and the round resets, clearing the sale
    /// record and the sale window. A draw with no ticket sold fails with
    /// `Error::EmptyDraw` and changes nothing.
    pub fn declare_winner(&mut self) -> (r: Result<(AccountId, u32), Error>)
        requires
            old(self).wf(),
        ensures
            final(self).wf(),
            old(self).tickets_t@.len() == 0 ==> {
                &&& r == Result::<(AccountId, u32), Error>::Err(Error::EmptyDraw)
                &&& *final(self) == *old(self)
            },
            old(self).tickets_t@.len() > 0 ==> {
                &&& r matches Ok(pair) && pair == old(self).tickets_t@[(derived_id(
                    old(self).seed as nat,
                ) % old(self).tickets_t@.len()) as int]
                &&& final(self).seed as nat == lcg_iter(old(self).seed as nat, 6)
                &&& final(self).tickets_t@ == Seq::<(AccountId, u32)>::empty()
                &&& final(self).start_time is None
                &&& final(self).tickets@ == old(self).tickets@
                &&& final(self).old_tickets@ == old(self).old_tickets@
                &&& final(self).ticket_price == old(self).ticket_price
                &&& final(self).duration == old(self).duration
            },
    {
        if self.tickets_t.len() == 0 {
            return Err(Error::EmptyDraw);
        }
        let random_value: u32 = self.generate_random_unique_digits();
        let random_index: usize = (random_value as usize) % self.tickets_t.len();
        let random_element = self.tickets_t[random_index];
        self.start_time = None;
        self.tickets_t = Vec::new();
        Ok(random_element)
    }
}

/// Round-trip law: a run of accepted purchases starting from an empty sale
/// record leaves exactly one `(owner, identifier)` pair per purchase, in
/// purchase order, each owner paired with the identifier its purchase
/// recorded. Since `get_all_tickets` returns the sale record exactly,
/// enumerating the sales immediately after `callers.len()` accepted
/// purchases returns exactly these pairs.
///
/// `states[0]` is the state before the first purchase; `states[i + 1]` is
/// the state after the purchase by `callers[i]` at time `times[i]`.
pub proof fn lemma_enumeration_after_purchases(
    states: Seq<Lottery>,
    callers: Seq<AccountId>,
    times: Seq<Timestamp>,
)
    requires
        states.len() == callers.len() + 1,
        times.len() == callers.len(),
        states[0].tickets_t@.len() == 0,
        forall|i: int|
            0 <= i < callers.len() ==> #[trigger] Lottery::purchase_accepted(
                states[i],
                states[i + 1],
                callers[i],
                times[i],
            ),
    ensures
        states.last().tickets_t@.len() == callers.len(),
        forall|i: int|
            0 <= i < callers.len() ==> #[trigger] states.last().tickets_t@[i] == states[i
                + 1].tickets_t@.last(),
        forall|i: int|
            0 <= i < callers.len() ==> (#[trigger] states.last().tickets_t@[i]).0 == callers[i],
    decreases callers.len(),
{
    let n: int = callers.len() as int;
    if n > 0 {
        lemma_enumeration_after_purchases(
            states.drop_last(),
            callers.drop_last(),
            times.drop_last(),
        );
        assert(states.drop_last().last() == states[n - 1]);
        assert(Lottery::purchase_accepted(states[n - 1], states[n], callers[n - 1], times[n - 1]));
        assert forall|i: int|
            0 <= i < n implies #[trigger] states.last().tickets_t@[i] == states[i
            + 1].tickets_t@.last() && states.last().tickets_t@[i].0 == callers[i] by {
            if i < n - 1 {
                assert(states.drop_last().last().tickets_t@[i] == states.drop_last()[i
                    + 1].tickets_t@.last());
                assert(states.last().tickets_t@[i] == states[n - 1].tickets_t@[i]);
            } else {
                assert(states.last().tickets_t@[i] == states.last().tickets_t@.last());
            }
        }
    }
}

/// Every identifier in the sale record of a well-formed lottery has six
/// pairwise-distinct decimal digits.
pub proof fn lemma_record_ids_have_distinct_digits(lottery: Lottery)
    requires
        lottery.wf(),
    ensures
        forall|k: int|
            0 <= k < lottery.tickets_t@.len() ==> has_distinct_digits(
                #[trigger] lottery.tickets_t@[k].1 as nat,
            ),
{
}

} // verus!
