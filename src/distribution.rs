//! The distribution engine: time gate, conversion of the pooled tax,
//! eligibility tiers, proportional shares and the jackpot.
use vstd::prelude::*;
use vstd::arithmetic::div_mod::{lemma_div_is_ordered, lemma_fundamental_div_mod_converse};
use vstd::arithmetic::mul::lemma_mul_inequality;

use crate::state::{AccountKey, ErrorCode, HolderInfo, ProgramState};

verus! {

/// Smallest holding that earns a proportional share.
pub const PROPORTIONAL_THRESHOLD: u64 = 200_000;

/// Smallest holding that makes a holder a jackpot candidate.
pub const JACKPOT_THRESHOLD: u64 = 400_000;

/// Seconds that must pass between two distributions.
pub const MIN_EPOCH_SECONDS: i64 = 5;

/// Pooled tokens are converted in whole lots of this many tokens...
pub const TOKENS_PER_LOT: u64 = 1_000_000;

/// ...each lot bringing this much settlement currency.
pub const SETTLEMENT_PER_LOT: u64 = 1_000_000_000;

/// One transfer of settlement currency from the authority: `lamports` to the
/// destination that stands at `destination` in the caller's list.
#[derive(Clone, Copy, Debug, PartialEq, Eq, Structural)]
pub struct Payout {
    pub destination: usize,
    pub lamports: u64,
}

/// What a successful distribution pays: the proportional payouts in snapshot
/// order, then the two jackpot payouts. The winners are positions in the
/// list of jackpot candidates.
#[derive(Debug)]
pub struct Distribution {
    pub sol_gained: u64,
    pub half: u64,
    pub jackpot_per_winner: u64,
    pub first_winner: usize,
    pub second_winner: usize,
    pub payouts: Vec<Payout>,
}

/// The entries of `s` holding at least `min`, in their order.
pub open spec fn at_least(s: Seq<HolderInfo>, min: u64) -> Seq<HolderInfo>
    decreases s.len(),
{
    if s.len() == 0 {
        Seq::empty()
    } else if s.last().amount >= min {
        at_least(s.drop_last(), min).push(s.last())
    } else {
        at_least(s.drop_last(), min)
    }
}

/// Total amount held by the entries of `s`.
pub open spec fn stake_sum(s: Seq<HolderInfo>) -> int
    decreases s.len(),
{
    if s.len() == 0 {
        0
    } else {
        stake_sum(s.drop_last()) + s.last().amount
    }
}

/// Settlement currency that `tokens` pooled tokens convert to: whole lots only.
pub open spec fn settlement_of(tokens: u64) -> int {
    (tokens as int / TOKENS_PER_LOT as int) * SETTLEMENT_PER_LOT as int
}

/// A holder's proportional share: `amount / total * half`, rounded down.
pub open spec fn share_of(amount: int, total: int, half: int) -> int {
    amount * half / total
}

/// Sum of the proportional shares of the entries of `s`.
pub open spec fn payout_sum(s: Seq<HolderInfo>, total: int, half: int) -> int
    decreases s.len(),
{
    if s.len() == 0 {
        0
    } else {
        payout_sum(s.drop_last(), total, half) + share_of(s.last().amount as int, total, half)
    }
}

/// `j` is the first position of `s` whose identity is `key`.
pub open spec fn is_first_match(s: Seq<HolderInfo>, key: Seq<u8>, j: int) -> bool {
    &&& 0 <= j < s.len()
    &&& s[j].account@ == key
    &&& forall|i: int| 0 <= i < j ==> s[i].account@ != key
}

/// The refusal that a distribution meets, checked in this order, or none.
pub open spec fn refusal(
    state: ProgramState,
    caller: Seq<u8>,
    holders: Seq<HolderInfo>,
    destination_count: int,
    now: i64,
) -> Option<ErrorCode> {
    if caller != state.authority@ {
        Some(ErrorCode::InvalidAuthority)
    } else if now - state.last_distribution < MIN_EPOCH_SECONDS {
        Some(ErrorCode::TooSoon)
    } else if settlement_of(state.pool_token_amount) > state.pool_sol_amount {
        Some(ErrorCode::InsufficientSol)
    } else if at_least(holders, PROPORTIONAL_THRESHOLD).len() == 0
        || at_least(holders, JACKPOT_THRESHOLD).len() < 2
        || destination_count != holders.len() {
        Some(ErrorCode::InsufficientHolders)
    } else {
        None
    }
}

proof fn lemma_at_least_member(s: Seq<HolderInfo>, min: u64, k: int)
    requires
        0 <= k < at_least(s, min).len(),
    ensures
        at_least(s, min)[k].amount >= min,
        exists|j: int| 0 <= j < s.len() && s[j] == at_least(s, min)[k],
    decreases s.len(),
{
    let rest = at_least(s.drop_last(), min);
    if s.last().amount >= min && k == rest.len() {
        assert(s[s.len() - 1] == at_least(s, min)[k]);
    } else {
        lemma_at_least_member(s.drop_last(), min, k);
        let j = choose|j: int| 0 <= j < s.drop_last().len() && s.drop_last()[j] == rest[k];
        assert(s[j] == at_least(s, min)[k]);
    }
}

proof fn lemma_member_le_sum(s: Seq<HolderInfo>, k: int)
    requires
        0 <= k < s.len(),
    ensures
        s[k].amount <= stake_sum(s),
        stake_sum(s) >= 0,
    decreases s.len(),
{
    lemma_sum_nonneg(s.drop_last());
    if k < s.len() - 1 {
        lemma_member_le_sum(s.drop_last(), k);
    }
}

proof fn lemma_sum_nonneg(s: Seq<HolderInfo>)
    ensures
        stake_sum(s) >= 0,
    decreases s.len(),
{
    if s.len() > 0 {
        lemma_sum_nonneg(s.drop_last());
    }
}

proof fn lemma_payout_sum_scaled(s: Seq<HolderInfo>, total: int, half: int)
    requires
        total > 0,
        half >= 0,
    ensures
        payout_sum(s, total, half) * total <= stake_sum(s) * half,
    decreases s.len(),
{
    if s.len() > 0 {
        let rest = s.drop_last();
        let a = s.last().amount as int;
        lemma_payout_sum_scaled(rest, total, half);
        let p = payout_sum(rest, total, half);
        let q = stake_sum(rest);
        let sh = share_of(a, total, half);
        assert(sh * total <= a * half) by (nonlinear_arith)
            requires
                sh == a * half / total,
                total > 0,
        ;
        assert((p + sh) * total <= (q + a) * half) by (nonlinear_arith)
            requires
                p * total <= q * half,
                sh * total <= a * half,
        ;
    }
}

/// Proportional payouts never exceed the half of the conversion set aside
/// for them: rounding can only leave a remainder in the pool.
pub proof fn lemma_proportional_payouts_within_half(holders: Seq<HolderInfo>, half: int)
    requires
        half >= 0,
        at_least(holders, PROPORTIONAL_THRESHOLD).len() > 0,
    ensures
        payout_sum(
            at_least(holders, PROPORTIONAL_THRESHOLD),
            stake_sum(at_least(holders, PROPORTIONAL_THRESHOLD)),
            half,
        ) <= half,
{
    let e = at_least(holders, PROPORTIONAL_THRESHOLD);
    lemma_at_least_member(holders, PROPORTIONAL_THRESHOLD, 0);
    lemma_member_le_sum(e, 0);
    let total = stake_sum(e);
    lemma_payout_sum_scaled(e, total, half);
    let p = payout_sum(e, total, half);
    assert(p <= half) by (nonlinear_arith)
        requires
            p * total <= total * half,
            total > 0,
    ;
}

/// For a fixed total stake, a larger holding never earns a smaller share.
pub proof fn lemma_share_monotonic(a: int, b: int, total: int, half: int)
    requires
        0 <= a <= b,
        total > 0,
        half >= 0,
    ensures
        share_of(a, total, half) <= share_of(b, total, half),
{
    lemma_mul_inequality(a, b, half);
    lemma_div_is_ordered(a * half, b * half, total);
}

/// With a single jackpot candidate, both winner positions pick it.
pub proof fn lemma_single_candidate_wins_twice(now: int)
    ensures
        now % 1 == 0,
        (now + 1) % 1 == 0,
{
}

fn holders_at_least(holders: &Vec<HolderInfo>, min: u64) -> (r: Vec<HolderInfo>)
    ensures
        r@ == at_least(holders@, min),
{
    let mut out: Vec<HolderInfo> = Vec::new();
    let mut i: usize = 0;
    while i < holders.len()
        invariant
            i <= holders.len(),
            out@ == at_least(holders@.subrange(0, i as int), min),
        decreases holders.len() - i,
    {
        let h = holders[i];
        if h.amount >= min {
            out.push(h);
        }
        assert(holders@.subrange(0, i + 1).drop_last() =~= holders@.subrange(0, i as int));
        i = i + 1;
    }
    assert(holders@.subrange(0, holders.len() as int) =~= holders@);
    out
}

/// Holders that earn a proportional share, in snapshot order.
pub fn eligible_holders(holders: &Vec<HolderInfo>) -> (r: Vec<HolderInfo>)
    ensures
        r@ == at_least(holders@, PROPORTIONAL_THRESHOLD),
{
    holders_at_least(holders, PROPORTIONAL_THRESHOLD)
}

/// Holders that may win the jackpot, in snapshot order.
pub fn jackpot_candidates(holders: &Vec<HolderInfo>) -> (r: Vec<HolderInfo>)
    ensures
        r@ == at_least(holders@, JACKPOT_THRESHOLD),
{
    holders_at_least(holders, JACKPOT_THRESHOLD)
}

/// The two jackpot positions among `n` candidates at time `now`:
/// `now mod n` and `(now + 1) mod n`.
pub fn select_winners(now: i64, n: usize) -> (r: (usize, usize))
    requires
        n > 0,
    ensures
        r.0 == now as int % n as int,
        r.1 == (now as int + 1) % n as int,
{
    let m: u128 = n as u128;
    let first: u128 = if now >= 0 {
        let a: u128 = now as u128;
        a % m
    } else {
        let a: u128 = (0i128 - now as i128) as u128;
        let r: u128 = a % m;
        let ghost q: int = a as int / m as int;
        assert(a as int == q * m as int + r as int) by (nonlinear_arith)
            requires
                m > 0,
                q == a as int / m as int,
                r as int == a as int % m as int,
        ;
        if r == 0 {
            proof {
                assert(now as int == (-q) * n as int + 0) by (nonlinear_arith)
                    requires
                        now as int == -(a as int),
                        a as int == q * m as int + r as int,
                        r == 0,
                        m as int == n as int,
                ;
                lemma_fundamental_div_mod_converse(now as int, n as int, -q, 0);
            }
            0
        } else {
            proof {
                assert(now as int == (-q - 1) * n as int + (n as int - r as int)) by (nonlinear_arith)
                    requires
                        now as int == -(a as int),
                        a as int == q * m as int + r as int,
                        m as int == n as int,
                ;
                lemma_fundamental_div_mod_converse(
                    now as int,
                    n as int,
                    -q - 1,
                    n as int - r as int,
                );
            }
            m - r
        }
    };
    let ghost q: int = now as int / n as int;
    assert(now as int == q * n as int + first as int) by (nonlinear_arith)
        requires
            n > 0,
            q == now as int / n as int,
            first as int == now as int % n as int,
    ;
    let second: u128 = if first + 1 == m {
        proof {
            assert(now as int + 1 == (q + 1) * n as int + 0) by (nonlinear_arith)
                requires
                    now as int == q * n as int + first as int,
                    first as int + 1 == n as int,
            ;
            lemma_fundamental_div_mod_converse(now as int + 1, n as int, q + 1, 0);
        }
        0
    } else {
        proof {
            lemma_fundamental_div_mod_converse(now as int + 1, n as int, q, first as int + 1);
        }
        first + 1
    };
    (first as usize, second as usize)
}


/// Position of the first snapshot entry whose identity is `key`.
fn destination_of(holders: &Vec<HolderInfo>, key: &AccountKey) -> (r: usize)
    requires
        exists|j: int| 0 <= j < holders@.len() && holders@[j].account@ == key@,
    ensures
        is_first_match(holders@, key@, r as int),
{
    let mut i: usize = 0;
    while i < holders.len()
        invariant
            i <= holders.len(),
            forall|k: int| 0 <= k < i ==> holders@[k].account@ != key@,
            exists|j: int| 0 <= j < holders@.len() && holders@[j].account@ == key@,
        decreases holders.len() - i,
    {
        if holders[i].account.same_as(key) {
            return i;
        }
        i = i + 1;
    }
    i
}

/// Sum of the holdings of `s`, exactly.
fn total_stake(s: &Vec<HolderInfo>) -> (r: u128)
    ensures
        r == stake_sum(s@),
{
    let mut total: u128 = 0;
    let mut i: usize = 0;
    while i < s.len()
        invariant
            i <= s.len(),
            total == stake_sum(s@.subrange(0, i as int)),
            total <= i as int * u64::MAX as int,
        decreases s.len() - i,
    {
        let a: u64 = s[i].amount;
        assert(s@.subrange(0, i + 1).drop_last() =~= s@.subrange(0, i as int));
        assert(total + a <= (i as int + 1) * u64::MAX as int) by (nonlinear_arith)
            requires
                total <= i as int * u64::MAX as int,
                a <= u64::MAX,
        ;
        assert((i as int + 1) * u64::MAX as int <= u128::MAX) by (nonlinear_arith)
            requires
                i < usize::MAX,
        ;
        total = total + a as u128;
        i = i + 1;
    }
    assert(s@.subrange(0, s.len() as int) =~= s@);
    total
}

/// A holder's proportional share of `half`, for a holding no larger than
/// the total stake.
pub fn proportional_share(amount: u64, total: u128, half: u64) -> (r: u64)
    requires
        0 < total,
        amount <= total,
    ensures
        r == share_of(amount as int, total as int, half as int),
        r <= half,
{
    assert(amount as int * half as int <= u64::MAX as int * u64::MAX as int) by (nonlinear_arith)
        requires
            amount <= u64::MAX,
            half <= u64::MAX,
    ;
    let product: u128 = amount as u128 * half as u128;
    proof {
        lemma_share_monotonic(amount as int, total as int, total as int, half as int);
        assert(share_of(total as int, total as int, half as int) == half as int) by (nonlinear_arith)
            requires
                total > 0,
        ;
    }
    (product / total) as u64
}

/// Runs one distribution for `caller` at time `now` over a holder snapshot
/// whose payout destinations number `destination_count`.
///
/// On a refusal nothing changes. On success the pooled tokens are converted,
/// the pools and the time of the last distribution are updated, and the
/// result lists the transfers of settlement currency to make.
pub fn distribute(
    state: &mut ProgramState,
    caller: &AccountKey,
    holders: &Vec<HolderInfo>,
    destination_count: usize,
    now: i64,
) -> (r: Result<Distribution, ErrorCode>)
    ensures
        r is Err <==> refusal(*old(state), caller@, holders@, destination_count as int, now) is Some,
        r is Err ==> *final(state) == *old(state)
            && r == Err::<Distribution, ErrorCode>(
                refusal(*old(state), caller@, holders@, destination_count as int, now)->Some_0,
            ),
        r is Ok ==> ({
            let d = r->Ok_0;
            let e = at_least(holders@, PROPORTIONAL_THRESHOLD);
            let jc = at_least(holders@, JACKPOT_THRESHOLD);
            &&& d.sol_gained == settlement_of(old(state).pool_token_amount)
            &&& final(state).pool_token_amount == 0
            &&& final(state).pool_sol_amount == old(state).pool_sol_amount - d.sol_gained
            &&& final(state).last_distribution == now
            &&& final(state).token_mint == old(state).token_mint
            &&& final(state).authority == old(state).authority
            &&& d.half == d.sol_gained / 2
            &&& d.jackpot_per_winner == d.half / 2
            &&& d.first_winner == now as int % jc.len() as int
            &&& d.second_winner == (now as int + 1) % jc.len() as int
            &&& d.payouts@.len() == e.len() + 2
            &&& forall|k: int| 0 <= k < e.len() ==> {
                &&& #[trigger] d.payouts@[k].lamports == share_of(e[k].amount as int, stake_sum(e), d.half as int)
                &&& is_first_match(holders@, e[k].account@, d.payouts@[k].destination as int)
            }
            &&& d.payouts@[e.len() as int].lamports == d.jackpot_per_winner
            &&& is_first_match(holders@, jc[d.first_winner as int].account@, d.payouts@[e.len() as int].destination as int)
            &&& d.payouts@[e.len() + 1int].lamports == d.jackpot_per_winner
            &&& is_first_match(holders@, jc[d.second_winner as int].account@, d.payouts@[e.len() + 1int].destination as int)
        }),
{
    if !caller.same_as(&state.authority) {
        return Err(ErrorCode::InvalidAuthority);
    }
    if (now as i128) - (state.last_distribution as i128) < MIN_EPOCH_SECONDS as i128 {
        return Err(ErrorCode::TooSoon);
    }
    let lots: u64 = state.pool_token_amount / TOKENS_PER_LOT;
    assert(lots as int * SETTLEMENT_PER_LOT as int <= u64::MAX as int * u64::MAX as int) by (nonlinear_arith)
        requires
            lots <= u64::MAX,
    ;
    let gained: u128 = lots as u128 * SETTLEMENT_PER_LOT as u128;
    if gained > state.pool_sol_amount as u128 {
        return Err(ErrorCode::InsufficientSol);
    }
    let sol_gained: u64 = gained as u64;

    let eligible = eligible_holders(holders);
    let candidates = jackpot_candidates(holders);
    if eligible.len() == 0 || candidates.len() < 2 {
        return Err(ErrorCode::InsufficientHolders);
    }
    if destination_count != holders.len() {
        return Err(ErrorCode::InsufficientHolders);
    }

    let total: u128 = total_stake(&eligible);
    let half: u64 = sol_gained / 2;
    proof {
        lemma_at_least_member(holders@, PROPORTIONAL_THRESHOLD, 0);
        lemma_member_le_sum(eligible@, 0);
    }
    let mut payouts: Vec<Payout> = Vec::new();
    let mut k: usize = 0;
    while k < eligible.len()
        invariant
            k <= eligible.len(),
            eligible@ == at_least(holders@, PROPORTIONAL_THRESHOLD),
            total == stake_sum(eligible@),
            total > 0,
            payouts@.len() == k,
            forall|m: int| 0 <= m < k ==> {
                &&& #[trigger] payouts@[m].lamports == share_of(eligible@[m].amount as int, total as int, half as int)
                &&& is_first_match(holders@, eligible@[m].account@, payouts@[m].destination as int)
            },
        decreases eligible.len() - k,
    {
        let h = eligible[k];
        proof {
            lemma_member_le_sum(eligible@, k as int);
            lemma_at_least_member(holders@, PROPORTIONAL_THRESHOLD, k as int);
        }
        let destination = destination_of(holders, &h.account);
        let lamports = proportional_share(h.amount, total, half);
        payouts.push(Payout { destination, lamports });
        k = k + 1;
    }

    let jackpot_per_winner: u64 = half / 2;
    let (first_winner, second_winner) = select_winners(now, candidates.len());
    proof {
        lemma_at_least_member(holders@, JACKPOT_THRESHOLD, first_winner as int);
        lemma_at_least_member(holders@, JACKPOT_THRESHOLD, second_winner as int);
    }
    let first_destination = destination_of(holders, &candidates[first_winner].account);
    payouts.push(Payout { destination: first_destination, lamports: jackpot_per_winner });
    let second_destination = destination_of(holders, &candidates[second_winner].account);
    payouts.push(Payout { destination: second_destination, lamports: jackpot_per_winner });

    state.pool_token_amount = 0;
    state.pool_sol_amount = state.pool_sol_amount - sol_gained;
    state.last_distribution = now;
    Ok(Distribution { sol_gained, half, jackpot_per_winner, first_winner, second_winner, payouts })
}

} // verus!
