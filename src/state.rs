//! The accumulator record, its lifecycle, and the tax taken on a transfer.
use vstd::prelude::*;

verus! {

/// Settlement currency that a freshly initialised pool starts with.
pub const INITIAL_SETTLEMENT_RESERVE: u64 = 10_000_000_000;

/// Share of each transfer that is diverted to the pool, as a divisor.
pub const TAX_DIVISOR: u64 = 10;

/// A 32-byte account identity.
#[derive(Clone, Copy, Debug)]
pub struct AccountKey {
    pub bytes: [u8; 32],
}

impl View for AccountKey {
    type V = Seq<u8>;

    open spec fn view(&self) -> Seq<u8> {
        self.bytes@
    }
}

impl AccountKey {
    pub fn new(bytes: [u8; 32]) -> (r: AccountKey)
        ensures
            r.bytes == bytes,
    {
        AccountKey { bytes }
    }

    /// Byte-wise comparison of two identities.
    pub fn same_as(&self, other: &AccountKey) -> (r: bool)
        ensures
            r == (self@ == other@),
    {
        let mut i: usize = 0;
        while i < 32
            invariant
                i <= 32,
                self@.len() == 32,
                other@.len() == 32,
                forall|j: int| 0 <= j < i ==> self@[j] == other@[j],
            decreases 32 - i,
        {
            if self.bytes[i] != other.bytes[i] {
                return false;
            }
            i = i + 1;
        }
        assert(self@ =~= other@);
        true
    }
}

impl PartialEq for AccountKey {
    fn eq(&self, o: &AccountKey) -> (r: bool) {
        self.same_as(o)
    }
}

impl vstd::std_specs::cmp::PartialEqSpecImpl for AccountKey {
    open spec fn obeys_eq_spec() -> bool {
        true
    }

    open spec fn eq_spec(&self, o: &AccountKey) -> bool {
        self@ == o@
    }
}

/// Why an operation was refused. Every refusal leaves the state untouched.
#[derive(Clone, Copy, Debug, PartialEq, Eq, Structural)]
pub enum ErrorCode {
    /// Not enough time has passed since the last distribution.
    TooSoon,
    /// The settlement pool cannot cover the conversion.
    InsufficientSol,
    /// Too few eligible holders or jackpot candidates, or a snapshot whose
    /// destinations do not line up with its entries.
    InsufficientHolders,
    /// The caller is not the stored authority.
    InvalidAuthority,
}

impl ErrorCode {
    /// Human-readable description of the refusal.
    pub fn message(&self) -> (r: &'static str) {
        match self {
            ErrorCode::TooSoon => "Not enough time has passed since the last distribution",
            ErrorCode::InsufficientSol => "Insufficient SOL in the pool",
            ErrorCode::InsufficientHolders => "Not enough eligible holders or jackpot candidates",
            ErrorCode::InvalidAuthority => "Invalid authority provided",
        }
    }
}

/// The singleton accumulator: pooled tax, settlement reserve and the time
/// of the last distribution.
#[derive(Clone, Copy, Debug)]
pub struct ProgramState {
    pub token_mint: AccountKey,
    pub authority: AccountKey,
    pub pool_token_amount: u64,
    pub pool_sol_amount: u64,
    pub last_distribution: i64,
}

/// One entry of a holder snapshot: an identity and the amount it holds.
#[derive(Clone, Copy, Debug)]
pub struct HolderInfo {
    pub account: AccountKey,
    pub amount: u64,
}

/// How a transfer of `amount` is divided between the pool and the recipient.
#[derive(Clone, Copy, Debug, PartialEq, Eq, Structural)]
pub struct TaxSplit {
    pub tax: u64,
    pub net: u64,
}

/// Tax owed on a transfer of `amount`: a tenth, rounded down.
pub open spec fn tax_of(amount: u64) -> int {
    amount as int / TAX_DIVISOR as int
}

/// Fresh accumulator: nothing pooled, the initial settlement reserve, and
/// `now` as the time of the last distribution.
pub fn initialize(token_mint: AccountKey, authority: AccountKey, now: i64) -> (r: ProgramState)
    ensures
        r.token_mint == token_mint,
        r.authority == authority,
        r.pool_token_amount == 0,
        r.pool_sol_amount == INITIAL_SETTLEMENT_RESERVE,
        r.last_distribution == now,
{
    ProgramState {
        token_mint,
        authority,
        pool_token_amount: 0,
        pool_sol_amount: INITIAL_SETTLEMENT_RESERVE,
        last_distribution: now,
    }
}

/// Divides a transfer into the tax for the pool and the net for the recipient.
pub fn tax_split(amount: u64) -> (r: TaxSplit)
    ensures
        r.tax == tax_of(amount),
        r.net == amount - tax_of(amount),
        r.tax + r.net == amount,
{
    let tax = amount / TAX_DIVISOR;
    TaxSplit { tax, net: amount - tax }
}

/// Records a taxed transfer of `amount` whose two legs have been moved:
/// the tax is added to the pooled token amount, nothing else changes.
/// Returns the split that the two legs carry.
pub fn transfer_with_tax(state: &mut ProgramState, amount: u64) -> (r: TaxSplit)
    requires
        old(state).pool_token_amount + tax_of(amount) <= u64::MAX,
    ensures
        r == tax_split_of(amount),
        final(state).pool_token_amount == old(state).pool_token_amount + tax_of(amount),
        final(state).pool_sol_amount == old(state).pool_sol_amount,
        final(state).last_distribution == old(state).last_distribution,
        final(state).token_mint == old(state).token_mint,
        final(state).authority == old(state).authority,
{
    let split = tax_split(amount);
    state.pool_token_amount = state.pool_token_amount + split.tax;
    split
}

/// The split of a transfer of `amount`, as a value.
pub open spec fn tax_split_of(amount: u64) -> TaxSplit {
    TaxSplit { tax: tax_of(amount) as u64, net: (amount - tax_of(amount)) as u64 }
}

/// Zeroes both pooled amounts, the step that must come before closing.
/// Only the authority may do it.
pub fn reset_pools(state: &mut ProgramState, caller: &AccountKey) -> (r: Result<(), ErrorCode>)
    ensures
        r is Err <==> caller@ != old(state).authority@,
        r is Err ==> r == Err::<(), ErrorCode>(ErrorCode::InvalidAuthority) && *final(state) == *old(state),
        r is Ok ==> final(state).pool_token_amount == 0 && final(state).pool_sol_amount == 0
            && final(state).last_distribution == old(state).last_distribution
            && final(state).token_mint == old(state).token_mint
            && final(state).authority == old(state).authority,
{
    if !caller.same_as(&state.authority) {
        return Err(ErrorCode::InvalidAuthority);
    }
    state.pool_token_amount = 0;
    state.pool_sol_amount = 0;
    Ok(())
}

/// Whether the accumulator may be released: only by the authority, and only
/// once both pools are zero.
pub fn close(state: &ProgramState, caller: &AccountKey) -> (r: Result<(), ErrorCode>)
    requires
        state.pool_token_amount == 0,
        state.pool_sol_amount == 0,
    ensures
        r is Ok <==> caller@ == state.authority@,
        r is Err ==> r == Err::<(), ErrorCode>(ErrorCode::InvalidAuthority),
{
    if !caller.same_as(&state.authority) {
        return Err(ErrorCode::InvalidAuthority);
    }
    Ok(())
}

} // verus!
