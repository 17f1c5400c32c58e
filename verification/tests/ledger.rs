use casper_fidelity::AccountId;
use casper_fidelity::CasperFidelity;
use casper_fidelity::Error;
use casper_fidelity::Event;

fn fresh_ledger() -> (CasperFidelity, AccountId, AccountId) {
    let deployer = AccountId::new(1);
    let customer_x = AccountId::new(2);
    let ledger = CasperFidelity::init(
        String::from("Fidelity"),
        String::from("FID"),
        2,
        1000,
        deployer,
        deployer,
    );
    (ledger, deployer, customer_x)
}

#[test]
fn init_states() {
    let (ledger, deployer, customer_x) = fresh_ledger();
    assert_eq!(ledger.admin, deployer);
    assert_eq!(ledger.get_total_burned(), 0);
    assert_eq!(ledger.balance_of(deployer), 1000);
    assert_eq!(ledger.balance_of(customer_x), 0);
    assert_eq!(ledger.token.total_supply(), 1000);
    assert_eq!(ledger.log.len(), 0);
    assert_eq!(ledger.token.name(), "Fidelity");
    assert_eq!(ledger.token.symbol(), "FID");
    assert_eq!(ledger.token.decimals(), 2);
}

#[test]
fn init_supply_can_go_elsewhere() {
    let deployer = AccountId::new(1);
    let treasury = AccountId::new(9);
    let ledger = CasperFidelity::init(
        String::from("Fidelity"),
        String::from("FID"),
        0,
        500,
        treasury,
        deployer,
    );
    assert_eq!(ledger.admin, deployer);
    assert_eq!(ledger.balance_of(treasury), 500);
    assert_eq!(ledger.balance_of(deployer), 0);
}

#[test]
fn scenario_admin_issues_points() {
    let (mut ledger, deployer, customer_x) = fresh_ledger();
    let r = ledger.issue_points(customer_x, 50, deployer, 11);
    assert_eq!(r, Ok(()));
    assert_eq!(ledger.balance_of(customer_x), 50);
    assert_eq!(ledger.log.len(), 1);
    match &ledger.log[0] {
        Event::PointsIssued(e) => {
            assert_eq!(e.customer, customer_x);
            assert_eq!(e.amount, 50);
            assert_eq!(e.timestamp, 11);
        },
        Event::RewardRedeemed(_) => panic!("issuance must log a PointsIssued event"),
    }
}

#[test]
fn scenario_customer_redeems() {
    let (mut ledger, deployer, customer_x) = fresh_ledger();
    ledger.issue_points(customer_x, 50, deployer, 11).unwrap();
    let r = ledger.redeem_reward(30, String::from("REWARD-1"), customer_x, 12);
    assert_eq!(r, Ok(()));
    assert_eq!(ledger.balance_of(customer_x), 20);
    assert_eq!(ledger.get_total_burned(), 30);
    assert_eq!(ledger.log.len(), 2);
    match &ledger.log[1] {
        Event::RewardRedeemed(e) => {
            assert_eq!(e.user, customer_x);
            assert_eq!(e.amount, 30);
            assert_eq!(e.reward_id, "REWARD-1");
            assert_eq!(e.timestamp, 12);
        },
        Event::PointsIssued(_) => panic!("redemption must log a RewardRedeemed event"),
    }
}

#[test]
fn scenario_overdraw_rejected() {
    let (mut ledger, deployer, customer_x) = fresh_ledger();
    ledger.issue_points(customer_x, 50, deployer, 11).unwrap();
    ledger.redeem_reward(30, String::from("REWARD-1"), customer_x, 12).unwrap();
    let r = ledger.redeem_reward(25, String::from("REWARD-2"), customer_x, 13);
    assert_eq!(r, Err(Error::InsufficientBalance));
    assert_eq!(ledger.balance_of(customer_x), 20);
    assert_eq!(ledger.get_total_burned(), 30);
    assert_eq!(ledger.log.len(), 2);
}

#[test]
fn scenario_non_admin_rejected() {
    let (mut ledger, _deployer, customer_x) = fresh_ledger();
    let customer_y = AccountId::new(3);
    let r = ledger.issue_points(customer_y, 10, customer_x, 14);
    assert_eq!(r, Err(Error::Unauthorized));
    assert_eq!(ledger.balance_of(customer_y), 0);
    assert_eq!(ledger.get_total_burned(), 0);
    assert_eq!(ledger.log.len(), 0);
}

#[test]
fn failed_redeem_any_number_of_times_changes_nothing() {
    let (mut ledger, deployer, customer_x) = fresh_ledger();
    ledger.issue_points(customer_x, 20, deployer, 11).unwrap();
    for _ in 0..5 {
        let r = ledger.redeem_reward(21, String::from("REWARD-1"), customer_x, 12);
        assert_eq!(r, Err(Error::InsufficientBalance));
        assert_eq!(ledger.balance_of(customer_x), 20);
        assert_eq!(ledger.get_total_burned(), 0);
        assert_eq!(ledger.log.len(), 1);
    }
}

#[test]
fn counter_always_equals_logged_redemption_sum() {
    let (mut ledger, deployer, customer_x) = fresh_ledger();
    let logged_sum = |l: &CasperFidelity| -> u64 {
        l.log
            .iter()
            .map(|ev| match ev {
                Event::RewardRedeemed(e) => e.amount,
                Event::PointsIssued(_) => 0,
            })
            .sum()
    };
    assert_eq!(ledger.get_total_burned(), logged_sum(&ledger));
    ledger.issue_points(customer_x, 100, deployer, 1).unwrap();
    assert_eq!(ledger.get_total_burned(), logged_sum(&ledger));
    ledger.redeem_reward(40, String::from("A"), customer_x, 2).unwrap();
    assert_eq!(ledger.get_total_burned(), logged_sum(&ledger));
    ledger.redeem_reward(60, String::from("B"), customer_x, 3).unwrap();
    assert_eq!(ledger.get_total_burned(), logged_sum(&ledger));
    let _ = ledger.redeem_reward(1, String::from("C"), customer_x, 4);
    assert_eq!(ledger.get_total_burned(), logged_sum(&ledger));
    assert_eq!(ledger.get_total_burned(), 100);
}

#[test]
fn issue_overflowing_supply_rejected() {
    let deployer = AccountId::new(1);
    let customer = AccountId::new(2);
    let mut ledger = CasperFidelity::init(
        String::from("Fidelity"),
        String::from("FID"),
        0,
        u64::MAX - 10,
        deployer,
        deployer,
    );
    let r = ledger.issue_points(customer, 11, deployer, 5);
    assert_eq!(r, Err(Error::ArithmeticFault));
    assert_eq!(ledger.balance_of(customer), 0);
    assert_eq!(ledger.token.total_supply(), u64::MAX - 10);
    assert_eq!(ledger.log.len(), 0);
    let r2 = ledger.issue_points(customer, 10, deployer, 6);
    assert_eq!(r2, Ok(()));
    assert_eq!(ledger.balance_of(customer), 10);
}

#[test]
fn overflowing_counter_rejected_atomically() {
    let deployer = AccountId::new(1);
    let mut ledger = CasperFidelity::init(
        String::from("Fidelity"),
        String::from("FID"),
        0,
        u64::MAX,
        deployer,
        deployer,
    );
    ledger.redeem_reward(u64::MAX, String::from("ALL"), deployer, 1).unwrap();
    assert_eq!(ledger.get_total_burned(), u64::MAX);
    ledger.issue_points(deployer, 5, deployer, 2).unwrap();
    let r = ledger.redeem_reward(1, String::from("ONE-MORE"), deployer, 3);
    assert_eq!(r, Err(Error::ArithmeticFault));
    assert_eq!(ledger.balance_of(deployer), 5);
    assert_eq!(ledger.get_total_burned(), u64::MAX);
    assert_eq!(ledger.log.len(), 2);
}

#[test]
fn redeem_whole_balance() {
    let (mut ledger, deployer, customer_x) = fresh_ledger();
    ledger.issue_points(customer_x, 50, deployer, 1).unwrap();
    let r = ledger.redeem_reward(50, String::from("ALL"), customer_x, 2);
    assert_eq!(r, Ok(()));
    assert_eq!(ledger.balance_of(customer_x), 0);
    assert_eq!(ledger.get_total_burned(), 50);
}

#[test]
fn admin_can_redeem_own_balance() {
    let (mut ledger, deployer, _customer_x) = fresh_ledger();
    let r = ledger.redeem_reward(1000, String::from("SELF"), deployer, 1);
    assert_eq!(r, Ok(()));
    assert_eq!(ledger.balance_of(deployer), 0);
    assert_eq!(ledger.token.total_supply(), 0);
    assert_eq!(ledger.get_total_burned(), 1000);
}
