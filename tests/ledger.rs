use carbon_credits::{Address, CarbonCredits, CreditBatch, LedgerError};

fn s(text: &str) -> String {
    text.to_string()
}

fn register(ledger: &mut CarbonCredits, issuer: Address, name: &str) -> u32 {
    ledger.register_project(
        issuer,
        s(name),
        s("Somewhere"),
        s("reforestation"),
        s("A project"),
        100,
    )
}

#[test]
fn test_register_and_get_project() {
    let mut ledger = CarbonCredits::init();
    let issuer = Address::new(1);
    let name = s("Forest Restoration Project");
    let location = s("Amazon Rainforest, Brazil");
    let project_type = s("reforestation");
    let description = s("A project to restore degraded forest areas");

    let project_id = ledger.register_project(
        issuer,
        name.clone(),
        location.clone(),
        project_type.clone(),
        description.clone(),
        0,
    );
    assert_eq!(project_id, 0u32);

    let project = ledger.get_project(project_id).unwrap();
    assert_eq!(project.id, 0u32);
    assert_eq!(project.name, name);
    assert_eq!(project.location, location);
    assert_eq!(project.project_type, project_type);
    assert_eq!(project.description, description);
}

#[test]
fn test_issue_credits() {
    let mut ledger = CarbonCredits::init();
    let issuer = Address::new(1);
    let recipient = Address::new(2);

    let project_id = ledger.register_project(
        issuer,
        s("Solar Energy Project"),
        s("California, USA"),
        s("renewable_energy"),
        s("Solar panel installation"),
        0,
    );

    let amount = 1000i128;
    let vintage = 2024u32;
    let batch = ledger
        .issue_credits(issuer, project_id, amount, vintage, recipient, 0)
        .unwrap();

    assert_eq!(batch.project_id, project_id);
    assert_eq!(batch.amount, amount);
    assert_eq!(batch.vintage, vintage);

    let balance = ledger.balance(recipient);
    assert_eq!(balance, amount);

    let project = ledger.get_project(project_id).unwrap();
    assert_eq!(project.total_credits_issued, amount);
}

#[test]
fn test_transfer_credits() {
    let mut ledger = CarbonCredits::init();
    let issuer = Address::new(1);
    let recipient = Address::new(2);
    let buyer = Address::new(3);

    let project_id = ledger.register_project(
        issuer,
        s("Wind Farm Project"),
        s("Texas, USA"),
        s("renewable_energy"),
        s("Wind turbine installation"),
        0,
    );
    let amount = 5000i128;
    let vintage = 2024u32;
    ledger
        .issue_credits(issuer, project_id, amount, vintage, recipient, 0)
        .unwrap();

    let transfer_amount = 2000i128;
    ledger.transfer(recipient, buyer, transfer_amount).unwrap();

    let recipient_balance = ledger.balance(recipient);
    assert_eq!(recipient_balance, amount - transfer_amount);

    let buyer_balance = ledger.balance(buyer);
    assert_eq!(buyer_balance, transfer_amount);
}

#[test]
fn test_retire_credits() {
    let mut ledger = CarbonCredits::init();
    let issuer = Address::new(1);
    let recipient = Address::new(2);

    let project_id = ledger.register_project(
        issuer,
        s("Carbon Capture Project"),
        s("Norway"),
        s("carbon_capture"),
        s("Direct air capture technology"),
        0,
    );
    let amount = 3000i128;
    let vintage = 2024u32;
    ledger
        .issue_credits(issuer, project_id, amount, vintage, recipient, 0)
        .unwrap();

    let retire_amount = 1500i128;
    let total_retired = ledger.retire(recipient, retire_amount).unwrap();
    assert_eq!(total_retired, retire_amount);

    let balance = ledger.balance(recipient);
    assert_eq!(balance, amount - retire_amount);

    let total_retired_check = ledger.total_retired();
    assert_eq!(total_retired_check, retire_amount);
}

#[test]
fn test_transfer_insufficient_balance() {
    let mut ledger = CarbonCredits::init();
    let sender = Address::new(1);
    let recipient = Address::new(2);

    let result = ledger.transfer(sender, recipient, 1000i128);
    assert_eq!(result, Err(LedgerError::InsufficientBalance));
}

#[test]
fn test_issue_credits_unauthorized() {
    let mut ledger = CarbonCredits::init();
    let issuer = Address::new(1);
    let unauthorized = Address::new(2);
    let recipient = Address::new(3);

    let project_id = ledger.register_project(
        issuer,
        s("Test Project"),
        s("Test Location"),
        s("reforestation"),
        s("Test description"),
        0,
    );

    let result = ledger.issue_credits(unauthorized, project_id, 1000i128, 2024u32, recipient, 0);
    assert_eq!(result, Err(LedgerError::Unauthorized));
}

#[test]
fn forest_restoration_scenario() {
    let mut ledger = CarbonCredits::init();
    let a = Address::new(10);
    let b = Address::new(20);
    let id = register(&mut ledger, a, "Forest Restoration");
    assert_eq!(id, 0);
    let batch = ledger.issue_credits(a, 0, 1000, 2024, b, 77).unwrap();
    assert_eq!(
        batch,
        CreditBatch { project_id: 0, amount: 1000, vintage: 2024, issued_at: 77 }
    );
    assert_eq!(ledger.balance(b), 1000);
    assert_eq!(ledger.get_project(0).unwrap().total_credits_issued, 1000);
}

#[test]
fn transfer_after_issuance_scenario() {
    let mut ledger = CarbonCredits::init();
    let a = Address::new(10);
    let b = Address::new(20);
    let c = Address::new(30);
    register(&mut ledger, a, "Forest Restoration");
    ledger.issue_credits(a, 0, 1000, 2024, b, 1).unwrap();
    assert_eq!(ledger.transfer(b, c, 2000), Err(LedgerError::InsufficientBalance));
    assert_eq!(ledger.balance(b), 1000);
    assert_eq!(ledger.balance(c), 0);
    assert_eq!(ledger.transfer(b, c, 400), Ok(()));
    assert_eq!(ledger.balance(b), 600);
    assert_eq!(ledger.balance(c), 400);
}

#[test]
fn retire_twice_scenario() {
    let mut ledger = CarbonCredits::init();
    let a = Address::new(10);
    let b = Address::new(20);
    register(&mut ledger, a, "Capture");
    ledger.issue_credits(a, 0, 3000, 2024, b, 1).unwrap();
    assert_eq!(ledger.retire(b, 1500), Ok(1500));
    assert_eq!(ledger.balance(b), 1500);
    assert_eq!(ledger.total_retired(), 1500);
    assert_eq!(ledger.retire(b, 1500), Ok(3000));
    assert_eq!(ledger.balance(b), 0);
    assert_eq!(ledger.total_retired(), 3000);
}

#[test]
fn unauthorized_issuance_changes_nothing() {
    let mut ledger = CarbonCredits::init();
    let a = Address::new(10);
    let b = Address::new(20);
    let intruder = Address::new(99);
    register(&mut ledger, a, "Forest Restoration");
    ledger.issue_credits(a, 0, 500, 2023, b, 1).unwrap();
    let before = ledger.balance(b);
    assert_eq!(
        ledger.issue_credits(intruder, 0, 1000, 2024, b, 2),
        Err(LedgerError::Unauthorized)
    );
    assert_eq!(ledger.balance(b), before);
    assert_eq!(ledger.get_project(0).unwrap().total_credits_issued, 500);
    assert_eq!(ledger.get_credits(b).len(), 1);
}

#[test]
fn issuance_on_unknown_project_is_not_found() {
    let mut ledger = CarbonCredits::init();
    let a = Address::new(1);
    assert_eq!(ledger.issue_credits(a, 0, 10, 2024, a, 0), Err(LedgerError::NotFound));
    register(&mut ledger, a, "One");
    assert_eq!(ledger.issue_credits(a, 1, 10, 2024, a, 0), Err(LedgerError::NotFound));
    assert_eq!(ledger.balance(a), 0);
}

#[test]
fn get_project_of_unknown_id_is_not_found() {
    let mut ledger = CarbonCredits::init();
    assert!(matches!(ledger.get_project(0), Err(LedgerError::NotFound)));
    register(&mut ledger, Address::new(1), "One");
    assert!(ledger.get_project(0).is_ok());
    assert!(matches!(ledger.get_project(1), Err(LedgerError::NotFound)));
}

#[test]
fn issuance_of_non_positive_amount_is_invalid() {
    let mut ledger = CarbonCredits::init();
    let a = Address::new(1);
    register(&mut ledger, a, "One");
    assert_eq!(ledger.issue_credits(a, 0, 0, 2024, a, 0), Err(LedgerError::InvalidAmount));
    assert_eq!(ledger.issue_credits(a, 0, -5, 2024, a, 0), Err(LedgerError::InvalidAmount));
    assert_eq!(ledger.get_project(0).unwrap().total_credits_issued, 0);
    assert_eq!(ledger.balance(a), 0);
}

#[test]
fn transfer_and_retire_refusals_change_nothing() {
    let mut ledger = CarbonCredits::init();
    let a = Address::new(1);
    let b = Address::new(2);
    register(&mut ledger, a, "One");
    ledger.issue_credits(a, 0, 100, 2024, b, 0).unwrap();
    assert_eq!(ledger.transfer(b, a, 0), Err(LedgerError::InvalidAmount));
    assert_eq!(ledger.transfer(b, a, -1), Err(LedgerError::InvalidAmount));
    assert_eq!(ledger.transfer(b, a, 101), Err(LedgerError::InsufficientBalance));
    assert_eq!(ledger.retire(b, 0), Err(LedgerError::InvalidAmount));
    assert_eq!(ledger.retire(b, -7), Err(LedgerError::InvalidAmount));
    assert_eq!(ledger.retire(b, 101), Err(LedgerError::InsufficientBalance));
    assert_eq!(ledger.retire(a, 1), Err(LedgerError::InsufficientBalance));
    assert_eq!(ledger.balance(b), 100);
    assert_eq!(ledger.balance(a), 0);
    assert_eq!(ledger.total_retired(), 0);
}

#[test]
fn exact_balance_can_be_moved_and_retired() {
    let mut ledger = CarbonCredits::init();
    let a = Address::new(1);
    let b = Address::new(2);
    let c = Address::new(3);
    register(&mut ledger, a, "One");
    ledger.issue_credits(a, 0, 100, 2024, b, 0).unwrap();
    assert_eq!(ledger.transfer(b, c, 100), Ok(()));
    assert_eq!(ledger.balance(b), 0);
    assert_eq!(ledger.retire(c, 100), Ok(100));
    assert_eq!(ledger.balance(c), 0);
}

#[test]
fn self_transfer_keeps_balance() {
    let mut ledger = CarbonCredits::init();
    let a = Address::new(1);
    let b = Address::new(2);
    register(&mut ledger, a, "One");
    ledger.issue_credits(a, 0, 50, 2024, b, 0).unwrap();
    assert_eq!(ledger.transfer(b, b, 50), Ok(()));
    assert_eq!(ledger.balance(b), 50);
    assert_eq!(ledger.transfer(b, b, 51), Err(LedgerError::InsufficientBalance));
}

#[test]
fn project_ids_are_sequential() {
    let mut ledger = CarbonCredits::init();
    let a = Address::new(1);
    for expected in 0u32..5 {
        assert_eq!(register(&mut ledger, a, "Same name"), expected);
    }
    let all = ledger.get_all_projects();
    assert_eq!(all.len(), 5);
    for (i, p) in all.iter().enumerate() {
        assert_eq!(p.id, i as u32);
        assert_eq!(p.total_credits_issued, 0);
        assert_eq!(p.created_at, 100);
    }
}

#[test]
fn project_total_is_sum_of_its_issuances() {
    let mut ledger = CarbonCredits::init();
    let a = Address::new(1);
    let b = Address::new(2);
    register(&mut ledger, a, "One");
    register(&mut ledger, b, "Two");
    ledger.issue_credits(a, 0, 100, 2020, a, 0).unwrap();
    ledger.issue_credits(b, 1, 40, 2021, a, 0).unwrap();
    ledger.issue_credits(a, 0, 250, 2022, b, 0).unwrap();
    assert_eq!(ledger.issue_credits(b, 0, 1, 2022, b, 0), Err(LedgerError::Unauthorized));
    assert_eq!(ledger.get_project(0).unwrap().total_credits_issued, 350);
    assert_eq!(ledger.get_project(1).unwrap().total_credits_issued, 40);
}

#[test]
fn conservation_after_mixed_operations() {
    let mut ledger = CarbonCredits::init();
    let holders = [Address::new(1), Address::new(2), Address::new(3)];
    register(&mut ledger, holders[0], "One");
    register(&mut ledger, holders[1], "Two");
    ledger.issue_credits(holders[0], 0, 700, 2020, holders[1], 0).unwrap();
    ledger.issue_credits(holders[1], 1, 300, 2021, holders[2], 0).unwrap();
    ledger.transfer(holders[1], holders[0], 250).unwrap();
    ledger.retire(holders[2], 120).unwrap();
    ledger.transfer(holders[2], holders[1], 30).unwrap();
    ledger.retire(holders[0], 250).unwrap();
    let _ = ledger.transfer(holders[0], holders[2], 1);
    let circulating: i128 = holders.iter().map(|h| ledger.balance(*h)).sum();
    let issued: i128 = ledger
        .get_all_projects()
        .iter()
        .map(|p| p.total_credits_issued)
        .sum();
    assert_eq!(circulating + ledger.total_retired(), issued);
    assert_eq!(issued, 1000);
    assert_eq!(ledger.total_retired(), 370);
    for h in holders.iter() {
        assert!(ledger.balance(*h) >= 0);
    }
}

#[test]
fn credits_list_is_issuance_history() {
    let mut ledger = CarbonCredits::init();
    let a = Address::new(1);
    let b = Address::new(2);
    let c = Address::new(3);
    register(&mut ledger, a, "One");
    ledger.issue_credits(a, 0, 10, 2020, b, 5).unwrap();
    ledger.issue_credits(a, 0, 20, 2021, c, 6).unwrap();
    ledger.issue_credits(a, 0, 30, 2022, b, 7).unwrap();
    ledger.transfer(b, c, 40).unwrap();
    ledger.retire(c, 5).unwrap();
    let of_b = ledger.get_credits(b);
    assert_eq!(of_b.len(), 2);
    assert_eq!(of_b[0].id, 0);
    assert_eq!(of_b[0].amount, 10);
    assert_eq!(of_b[0].vintage, 2020);
    assert_eq!(of_b[0].issued_at, 5);
    assert_eq!(of_b[0].owner, b);
    assert!(!of_b[0].retired);
    assert_eq!(of_b[1].id, 2);
    assert_eq!(of_b[1].amount, 30);
    let of_c = ledger.get_credits(c);
    assert_eq!(of_c.len(), 1);
    assert_eq!(of_c[0].id, 1);
    assert_eq!(ledger.get_credits(a).len(), 0);
    assert_eq!(ledger.balance(b), 0);
}

#[test]
fn fresh_ledger_is_empty() {
    let ledger = CarbonCredits::init();
    assert_eq!(ledger.get_all_projects().len(), 0);
    assert_eq!(ledger.total_retired(), 0);
    assert_eq!(ledger.balance(Address::new(5)), 0);
    assert_eq!(ledger.get_credits(Address::new(5)).len(), 0);
}

#[test]
fn large_amounts_are_kept_exactly() {
    let mut ledger = CarbonCredits::init();
    let a = Address::new(1);
    let b = Address::new(2);
    register(&mut ledger, a, "Big");
    ledger.issue_credits(a, 0, i128::MAX - 1, 2024, b, 0).unwrap();
    ledger.issue_credits(a, 0, 1, 2024, a, 0).unwrap();
    assert_eq!(ledger.balance(b), i128::MAX - 1);
    assert_eq!(ledger.get_project(0).unwrap().total_credits_issued, i128::MAX);
    assert_eq!(ledger.retire(b, i128::MAX - 1), Ok(i128::MAX - 1));
}
