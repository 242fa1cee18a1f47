use lottery::{Error, Lottery};

const TICKET_PRICE: u128 = 100_000_000;

/// The six decimal digits of `id`, least significant first, leading zeros
/// included.
fn six_digits(id: u32) -> [u32; 6] {
    let mut digits = [0u32; 6];
    let mut rest = id;
    for slot in digits.iter_mut() {
        *slot = rest % 10;
        rest /= 10;
    }
    digits
}

fn digits_pairwise_distinct(id: u32) -> bool {
    let digits = six_digits(id);
    for p in 0..6 {
        for q in (p + 1)..6 {
            if digits[p] == digits[q] {
                return false;
            }
        }
    }
    true
}

#[test]
fn test_buy_ticket() {
    let mut contract = Lottery::new(TICKET_PRICE, 100);

    let alice: u64 = 1;

    assert_eq!(contract.buy_ticket(alice, TICKET_PRICE, 0), Ok(()));
    assert_eq!(contract.buy_ticket(alice, TICKET_PRICE, 0), Ok(()));

    assert_eq!(contract.latest_ticket(alice), contract.latest_ticket(alice));
}

#[test]
fn test_insufficient_allowance() {
    let mut contract = Lottery::new(TICKET_PRICE * 2, 100);

    let bob: u64 = 2;

    assert_eq!(
        contract.buy_ticket(bob, TICKET_PRICE, 0),
        Err(Error::InsufficientAllowance)
    );

    assert_eq!(contract.latest_ticket(bob), None);
}

#[test]
fn recorded_identifiers_have_distinct_digits() {
    let mut contract = Lottery::new(10, 50);
    for owner in 0..8u64 {
        assert_eq!(contract.buy_ticket(owner, 10, owner), Ok(()));
    }
    let record = contract.get_all_tickets();
    assert_eq!(record.len(), 8);
    for (_, id) in record {
        assert!(id < 1_000_000);
        assert!(digits_pairwise_distinct(id));
    }
}

#[test]
fn rejected_purchase_mutates_nothing() {
    let mut contract = Lottery::new(100, 100);
    assert_eq!(contract.buy_ticket(7, 100, 3), Ok(()));
    let before = contract.get_all_tickets();
    let latest_before = contract.latest_ticket(7);

    assert_eq!(
        contract.buy_ticket(7, 99, 4),
        Err(Error::InsufficientAllowance)
    );

    assert_eq!(contract.get_all_tickets(), before);
    assert_eq!(contract.latest_ticket(7), latest_before);
    assert!(contract.is_active());
}

#[test]
fn scenario_purchase_reject_draw() {
    let mut contract = Lottery::new(100, 100);
    assert!(!contract.is_active());

    assert_eq!(contract.buy_ticket(1, 100, 0), Ok(()));
    assert!(contract.is_active());
    assert_eq!(contract.get_all_tickets().len(), 1);

    assert_eq!(contract.buy_ticket(2, 50, 1), Err(Error::InsufficientAllowance));
    assert_eq!(contract.get_all_tickets().len(), 1);

    let recorded = contract.get_all_tickets()[0];
    assert_eq!(contract.declare_winner(), Ok(recorded));
    assert_eq!(contract.get_all_tickets().len(), 0);
    assert!(!contract.is_active());
}

#[test]
fn draw_without_sales_fails_and_mutates_nothing() {
    let mut contract = Lottery::new(100, 100);
    assert_eq!(contract.declare_winner(), Err(Error::EmptyDraw));
    assert_eq!(contract.get_all_tickets().len(), 0);
    assert!(!contract.is_active());

    // The error is retriable: a later purchase and draw still work.
    assert_eq!(contract.buy_ticket(3, 100, 9), Ok(()));
    let recorded = contract.get_all_tickets()[0];
    assert_eq!(contract.declare_winner(), Ok(recorded));
}

#[test]
fn enumeration_returns_purchases_in_order() {
    let mut contract = Lottery::new(5, 100);
    let owners = [10u64, 11, 12];
    for (step, owner) in owners.iter().enumerate() {
        assert_eq!(contract.buy_ticket(*owner, 5, step as u64), Ok(()));
    }
    let record = contract.get_all_tickets();
    assert_eq!(record.len(), 3);
    for (step, owner) in owners.iter().enumerate() {
        assert_eq!(record[step].0, *owner);
        assert_eq!(contract.latest_ticket(*owner), Some(record[step].1));
    }
}

#[test]
fn repeat_purchase_overwrites_latest_ticket() {
    let mut contract = Lottery::new(1, 100);
    assert_eq!(contract.buy_ticket(4, 1, 0), Ok(()));
    let first = contract.latest_ticket(4).unwrap();
    assert_eq!(contract.buy_ticket(4, 1, 1), Ok(()));
    let second = contract.latest_ticket(4).unwrap();

    let record = contract.get_all_tickets();
    assert_eq!(record.len(), 2);
    assert_eq!(record[0], (4, first));
    assert_eq!(record[1], (4, second));
}

#[test]
fn draw_keeps_latest_tickets_of_past_rounds() {
    let mut contract = Lottery::new(2, 100);
    assert_eq!(contract.buy_ticket(6, 2, 0), Ok(()));
    let id = contract.latest_ticket(6);
    assert!(id.is_some());
    assert!(contract.declare_winner().is_ok());
    assert_eq!(contract.latest_ticket(6), id);
}

#[test]
fn exact_purchase_price_is_accepted() {
    let mut contract = Lottery::new(100, 100);
    assert_eq!(contract.buy_ticket(5, 100, 0), Ok(()));
    assert_eq!(contract.get_all_tickets().len(), 1);
}

#[test]
fn random_stream_follows_the_recurrence() {
    let mut contract = Lottery::new(1, 1);
    assert_eq!(contract.rand(), 1_013_904_223);
    assert_eq!(contract.rand(), 1_196_435_762);
    assert_eq!(contract.rand(), 3_519_870_697);
}

#[test]
fn identifiers_repeat_across_fresh_instances() {
    // Nothing is ever retired, and the seed starts at a fixed value, so two
    // freshly constructed lotteries issue the same first identifier.
    let mut first = Lottery::new(1, 1);
    let mut second = Lottery::new(1, 1);
    assert_eq!(first.buy_ticket(1, 1, 0), Ok(()));
    assert_eq!(second.buy_ticket(2, 1, 0), Ok(()));
    assert_eq!(
        first.get_all_tickets()[0].1,
        second.get_all_tickets()[0].1
    );
}

#[test]
fn derivation_from_a_fresh_seed_is_exact() {
    // From seed 0 the recurrence draws 6 values per derivation; probing the
    // candidates digit by digit yields these identifiers.
    let mut contract = Lottery::new(1, 1);
    assert_eq!(contract.generate_random_unique_digits(), 327_485);
    assert_eq!(contract.generate_random_unique_digits(), 983_475);
    assert_eq!(contract.generate_random_unique_digits(), 705_436);
}

#[test]
fn derived_values_have_distinct_digits() {
    let mut contract = Lottery::new(1, 1);
    for _ in 0..16 {
        let value = contract.generate_random_unique_digits();
        assert!(value < 1_000_000);
        assert!(digits_pairwise_distinct(value));
    }
}
