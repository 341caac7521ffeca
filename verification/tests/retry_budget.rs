use load_balancer::retry_budget::RetryBudget;

fn affordable_retries(budget: &mut RetryBudget) -> u32 {
    let mut paid = 0;
    while budget.try_withdraw() {
        paid += 1;
    }
    paid
}

#[test]
fn full_budget_pays_for_ten_retries() {
    let mut budget = RetryBudget::new(100, 10);
    assert_eq!(affordable_retries(&mut budget), 10);
    assert!(!budget.try_withdraw());
}

#[test]
fn deposits_pay_for_retries_one_token_each() {
    let mut budget = RetryBudget::new(100, 10);
    affordable_retries(&mut budget);
    for _ in 0..9 {
        budget.deposit();
        assert!(!budget.try_withdraw());
    }
    budget.deposit();
    assert!(budget.try_withdraw());
    assert!(!budget.try_withdraw());
}

#[test]
fn deposits_stop_at_the_maximum() {
    let mut budget = RetryBudget::new(20, 10);
    for _ in 0..1000 {
        budget.deposit();
    }
    assert_eq!(affordable_retries(&mut budget), 2);

    let mut largest = RetryBudget::new(255, 51);
    largest.deposit();
    assert_eq!(affordable_retries(&mut largest), 5);
}

#[test]
fn retry_beyond_the_maximum_is_never_paid() {
    let mut budget = RetryBudget::new(5, 6);
    budget.deposit();
    assert!(!budget.try_withdraw());
}

#[test]
fn refused_withdrawal_takes_nothing() {
    let mut budget = RetryBudget::new(15, 10);
    assert!(budget.try_withdraw());
    assert!(!budget.try_withdraw());
    for _ in 0..5 {
        budget.deposit();
    }
    assert!(budget.try_withdraw());
}

#[test]
fn retries_stay_a_bounded_share_of_requests() {
    let mut budget = RetryBudget::new(100, 10);
    let mut paid = 0;
    for _ in 0..500 {
        budget.deposit();
        for _ in 0..3 {
            if budget.try_withdraw() {
                paid += 1;
            }
        }
    }
    assert_eq!(paid, 59);
    assert!(paid * 10 <= 100 + 500);
}
