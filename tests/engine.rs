use jackpot_token::{
    close, distribute, eligible_holders, initialize, jackpot_candidates, proportional_share,
    reset_pools, select_winners, tax_split, transfer_with_tax, AccountKey, ErrorCode, HolderInfo,
    Payout, ProgramState, INITIAL_SETTLEMENT_RESERVE,
};

fn key(b: u8) -> AccountKey {
    AccountKey::new([b; 32])
}

fn holder(b: u8, amount: u64) -> HolderInfo {
    HolderInfo { account: key(b), amount }
}

fn state_with(pool_tokens: u64, pool_sol: u64, last: i64) -> ProgramState {
    let mut s = initialize(key(1), key(2), last);
    s.pool_token_amount = pool_tokens;
    s.pool_sol_amount = pool_sol;
    s
}

fn same_state(a: &ProgramState, b: &ProgramState) -> bool {
    a.token_mint == b.token_mint
        && a.authority == b.authority
        && a.pool_token_amount == b.pool_token_amount
        && a.pool_sol_amount == b.pool_sol_amount
        && a.last_distribution == b.last_distribution
}

fn snapshot() -> Vec<HolderInfo> {
    vec![holder(10, 300_000), holder(11, 500_000), holder(12, 700_000), holder(13, 100_000)]
}

#[test]
fn initialize_seeds_reserve() {
    let s = initialize(key(1), key(2), 42);
    assert!(s.token_mint == key(1));
    assert!(s.authority == key(2));
    assert_eq!(s.pool_token_amount, 0);
    assert_eq!(s.pool_sol_amount, 10_000_000_000);
    assert_eq!(INITIAL_SETTLEMENT_RESERVE, 10_000_000_000);
    assert_eq!(s.last_distribution, 42);
}

#[test]
fn tax_is_a_tenth_rounded_down() {
    for (amount, tax) in [(0u64, 0u64), (9, 0), (10, 1), (105, 10), (1_000_000, 100_000)] {
        let t = tax_split(amount);
        assert_eq!(t.tax, tax);
        assert_eq!(t.net, amount - tax);
        assert_eq!(t.tax + t.net, amount);
    }
    let t = tax_split(u64::MAX);
    assert_eq!(t.tax, u64::MAX / 10);
    assert_eq!(t.tax + t.net, u64::MAX);
}

#[test]
fn transfer_with_tax_adds_tax_to_pool() {
    let mut s = state_with(7, 100, 0);
    let t = transfer_with_tax(&mut s, 1_234);
    assert_eq!(t.tax, 123);
    assert_eq!(t.net, 1_111);
    assert_eq!(s.pool_token_amount, 130);
    assert_eq!(s.pool_sol_amount, 100);
    assert_eq!(s.last_distribution, 0);
}

#[test]
fn account_keys_compare_by_bytes() {
    assert!(key(3) == key(3));
    let mut b = [3u8; 32];
    b[31] = 4;
    assert!(key(3) != AccountKey::new(b));
    assert!(key(3).same_as(&key(3)));
    assert!(!key(3).same_as(&AccountKey::new(b)));
}

#[test]
fn classifier_keeps_order_and_overlaps() {
    let h = vec![holder(1, 400_000), holder(2, 199_999), holder(3, 200_000), holder(4, 900_000)];
    let e = eligible_holders(&h);
    let j = jackpot_candidates(&h);
    assert_eq!(e.iter().map(|x| x.amount).collect::<Vec<_>>(), vec![400_000, 200_000, 900_000]);
    assert_eq!(j.iter().map(|x| x.amount).collect::<Vec<_>>(), vec![400_000, 900_000]);
    assert!(e[0].account == j[0].account);
}

#[test]
fn winners_are_now_and_next_mod_n() {
    assert_eq!(select_winners(7, 3), (1, 2));
    assert_eq!(select_winners(8, 3), (2, 0));
    assert_eq!(select_winners(1010, 2), (0, 1));
    assert_eq!(select_winners(-1, 3), (2, 0));
    assert_eq!(select_winners(i64::MAX, 10), (7, 8));
}

#[test]
fn single_candidate_wins_twice() {
    for now in [0i64, 1, 5, 1_700_000_000, -3] {
        assert_eq!(select_winners(now, 1), (0, 0));
    }
}

#[test]
fn share_is_floor_of_proportion() {
    assert_eq!(proportional_share(300_000, 1_500_000, 2_500_000_000), 500_000_000);
    assert_eq!(proportional_share(500_000, 1_500_000, 2_500_000_000), 833_333_333);
    assert_eq!(proportional_share(1_500_000, 1_500_000, 2_500_000_000), 2_500_000_000);
    assert_eq!(proportional_share(u64::MAX, u64::MAX as u128 * 2, u64::MAX), u64::MAX / 2);
}

#[test]
fn share_grows_with_holding() {
    let total: u128 = 3_000_000;
    let mut prev = 0u64;
    for amount in [0u64, 1, 200_000, 200_001, 999_999, 3_000_000] {
        let s = proportional_share(amount, total, 1_234_567);
        assert!(s >= prev);
        prev = s;
    }
}

#[test]
fn distribution_pays_example_pool() {
    let mut s = state_with(5_000_000, 10_000_000_000, 1_000);
    let d = distribute(&mut s, &key(2), &snapshot(), 4, 1_010).unwrap();
    assert_eq!(d.sol_gained, 5_000_000_000);
    assert_eq!(d.half, 2_500_000_000);
    assert_eq!(d.jackpot_per_winner, 1_250_000_000);
    assert_eq!(s.pool_token_amount, 0);
    assert_eq!(s.pool_sol_amount, 5_000_000_000);
    assert_eq!(s.last_distribution, 1_010);
    assert_eq!((d.first_winner, d.second_winner), (0, 1));
    assert_eq!(
        d.payouts,
        vec![
            Payout { destination: 0, lamports: 500_000_000 },
            Payout { destination: 1, lamports: 833_333_333 },
            Payout { destination: 2, lamports: 1_166_666_666 },
            Payout { destination: 1, lamports: 1_250_000_000 },
            Payout { destination: 2, lamports: 1_250_000_000 },
        ]
    );
    let proportional: u64 = d.payouts[..3].iter().map(|p| p.lamports).sum();
    assert_eq!(proportional, 2_499_999_999);
    assert!(proportional <= d.half);
}

#[test]
fn distribution_converts_whole_lots_only() {
    let mut s = state_with(2_999_999, 10_000_000_000, 0);
    let d = distribute(&mut s, &key(2), &snapshot(), 4, 5).unwrap();
    assert_eq!(d.sol_gained, 2_000_000_000);
    assert_eq!(s.pool_token_amount, 0);
    assert_eq!(s.pool_sol_amount, 8_000_000_000);
}

#[test]
fn distribution_pays_first_matching_destination() {
    let h = vec![holder(10, 500_000), holder(11, 450_000), holder(10, 600_000)];
    let mut s = state_with(4_000_000, 10_000_000_000, 0);
    let d = distribute(&mut s, &key(2), &h, 3, 100).unwrap();
    let dest: Vec<usize> = d.payouts.iter().map(|p| p.destination).collect();
    assert_eq!(dest, vec![0, 1, 0, 1, 0]);
}

#[test]
fn distribution_too_soon_changes_nothing() {
    let mut s = state_with(5_000_000, 10_000_000_000, 1_000);
    let before = s;
    assert_eq!(distribute(&mut s, &key(2), &snapshot(), 4, 1_004).unwrap_err(), ErrorCode::TooSoon);
    assert!(same_state(&s, &before));
    assert_eq!(distribute(&mut s, &key(2), &snapshot(), 4, 900).unwrap_err(), ErrorCode::TooSoon);
    assert!(same_state(&s, &before));
    assert!(distribute(&mut s, &key(2), &snapshot(), 4, 1_005).is_ok());
}

#[test]
fn distribution_short_of_settlement_changes_nothing() {
    let mut s = state_with(11_000_000, 10_000_000_000, 0);
    let before = s;
    let e = distribute(&mut s, &key(2), &snapshot(), 4, 100).unwrap_err();
    assert_eq!(e, ErrorCode::InsufficientSol);
    assert!(same_state(&s, &before));
    let mut huge = state_with(u64::MAX, u64::MAX, 0);
    let before = huge;
    let e = distribute(&mut huge, &key(2), &snapshot(), 4, 100).unwrap_err();
    assert_eq!(e, ErrorCode::InsufficientSol);
    assert!(same_state(&huge, &before));
}

#[test]
fn distribution_without_eligible_holders_changes_nothing() {
    let mut s = state_with(5_000_000, 10_000_000_000, 0);
    let before = s;
    let small = vec![holder(1, 199_999), holder(2, 10)];
    assert_eq!(distribute(&mut s, &key(2), &small, 2, 100).unwrap_err(), ErrorCode::InsufficientHolders);
    let one_candidate = vec![holder(1, 400_000), holder(2, 399_999)];
    assert_eq!(
        distribute(&mut s, &key(2), &one_candidate, 2, 100).unwrap_err(),
        ErrorCode::InsufficientHolders
    );
    assert_eq!(distribute(&mut s, &key(2), &Vec::new(), 0, 100).unwrap_err(), ErrorCode::InsufficientHolders);
    assert!(same_state(&s, &before));
}

#[test]
fn distribution_with_mismatched_destinations_changes_nothing() {
    let mut s = state_with(5_000_000, 10_000_000_000, 0);
    let before = s;
    assert_eq!(distribute(&mut s, &key(2), &snapshot(), 3, 100).unwrap_err(), ErrorCode::InsufficientHolders);
    assert_eq!(distribute(&mut s, &key(2), &snapshot(), 5, 100).unwrap_err(), ErrorCode::InsufficientHolders);
    assert!(same_state(&s, &before));
}

#[test]
fn distribution_by_stranger_is_refused() {
    let mut s = state_with(5_000_000, 10_000_000_000, 0);
    let before = s;
    assert_eq!(distribute(&mut s, &key(9), &snapshot(), 4, 100).unwrap_err(), ErrorCode::InvalidAuthority);
    assert!(same_state(&s, &before));
}

#[test]
fn distribution_of_empty_pool_pays_nothing() {
    let mut s = state_with(999_999, 0, 0);
    let d = distribute(&mut s, &key(2), &snapshot(), 4, 100).unwrap();
    assert_eq!(d.sol_gained, 0);
    assert!(d.payouts.iter().all(|p| p.lamports == 0));
    assert_eq!(s.pool_token_amount, 0);
    assert_eq!(s.last_distribution, 100);
}

#[test]
fn close_after_reset_by_authority() {
    let mut s = state_with(5, 6, 0);
    assert_eq!(reset_pools(&mut s, &key(9)), Err(ErrorCode::InvalidAuthority));
    assert_eq!((s.pool_token_amount, s.pool_sol_amount), (5, 6));
    assert_eq!(reset_pools(&mut s, &key(2)), Ok(()));
    assert_eq!((s.pool_token_amount, s.pool_sol_amount), (0, 0));
    assert_eq!(close(&s, &key(9)), Err(ErrorCode::InvalidAuthority));
    assert_eq!(close(&s, &key(2)), Ok(()));
}

#[test]
fn error_messages() {
    assert_eq!(ErrorCode::TooSoon.message(), "Not enough time has passed since the last distribution");
    assert_eq!(ErrorCode::InvalidAuthority.message(), "Invalid authority provided");
}
