use ledger_core::dates::Date;
use ledger_core::errors::{EntityKind, LedgerError, RefAction};
use ledger_core::ledger::Ledger;
use ledger_core::models::{
    CreateAccountRequest, CreateBudgetRequest, CreateTransactionRequest, GetTransactionsQuery,
    TransactionKind, TransferRequest, UpdateAccountRequest, UpdateBudgetRequest,
};
use ledger_core::money::Money;

fn today() -> Date {
    Date::new(2026, 10, 9)
}

fn units(v: i128) -> Money {
    Money::from_units(v)
}

fn account_req(name: &str) -> CreateAccountRequest {
    CreateAccountRequest { name: name.to_string(), currency: None }
}

fn txn_req(account_id: i32, amount: &str, date: Option<&str>) -> CreateTransactionRequest {
    CreateTransactionRequest {
        account_id: Some(account_id),
        account_name: None,
        amount: amount.to_string(),
        date: date.map(|d| d.to_string()),
        category_id: None,
        category_name: None,
        description: None,
    }
}

#[test]
fn account_creation_defaults() {
    let mut l = Ledger::new();
    let a = l.create_account(7, &account_req("Checking")).unwrap();
    assert_eq!(a.id, 1);
    assert_eq!(a.user_id, 7);
    assert_eq!(a.name, "Checking");
    assert_eq!(a.currency, "USD");
    assert_eq!(a.balance, Money::zero());
    let err = l.create_account(7, &account_req("")).unwrap_err();
    assert!(matches!(err, LedgerError::BadName(EntityKind::Account)));
    let long = "x".repeat(51);
    let err = l.create_account(7, &account_req(&long)).unwrap_err();
    assert!(matches!(err, LedgerError::BadName(EntityKind::Account)));
}

#[test]
fn balances_follow_postings() {
    // a run of signed postings leaves the balance at their exact sum
    let mut l = Ledger::new();
    let a = l.create_account(1, &account_req("Checking")).unwrap();
    let amounts = ["10.50", "-3.25", "100", "-0.00000001", "-7.24999999", "42.42"];
    for amt in amounts {
        l.record_transaction(1, &txn_req(a.id, amt, Some("2026-10-01")), today()).unwrap();
    }
    // recompute the expected sum exactly, in 10^-8 units
    let expected = 1_050_000_000i128 - 325_000_000 + 10_000_000_000 - 1 - 724_999_999
        + 4_242_000_000;
    assert_eq!(l.accounts[0].balance, units(expected));
}

#[test]
fn posting_rules() {
    let mut l = Ledger::new();
    let a = l.create_account(1, &account_req("Checking")).unwrap();
    let t = l.record_transaction(1, &txn_req(a.id, "12.00", Some("2026-10-02")), today()).unwrap();
    assert_eq!(t.kind, TransactionKind::Income);
    let t = l.record_transaction(1, &txn_req(a.id, "-1.50", None), today()).unwrap();
    assert_eq!(t.kind, TransactionKind::Expense);
    assert_eq!(t.date, today());
    let err = l.record_transaction(1, &txn_req(a.id, "0.0", None), today()).unwrap_err();
    assert!(matches!(err, LedgerError::ZeroAmount));
    let err = l.record_transaction(1, &txn_req(a.id, "nope", None), today()).unwrap_err();
    assert!(matches!(err, LedgerError::BadAmount));
    let err = l
        .record_transaction(1, &txn_req(a.id, "5", Some("2026-13-40")), today())
        .unwrap_err();
    assert!(matches!(err, LedgerError::BadDate));
    let err = l.record_transaction(1, &txn_req(99, "5", None), today()).unwrap_err();
    assert!(matches!(err, LedgerError::NotFound(EntityKind::Account, RefAction::Use)));
    let mut both = txn_req(a.id, "5", None);
    both.account_name = Some("Other".to_string());
    let err = l.record_transaction(1, &both, today()).unwrap_err();
    assert!(matches!(err, LedgerError::MissingRef(EntityKind::Account)));
    // another user cannot post into this account
    let err = l.record_transaction(2, &txn_req(a.id, "5", None), today()).unwrap_err();
    assert!(matches!(err, LedgerError::NotFound(EntityKind::Account, RefAction::Use)));
}

#[test]
fn account_created_on_first_use_by_name() {
    let mut l = Ledger::new();
    let mut req = txn_req(0, "25", Some("2026-10-01"));
    req.account_id = None;
    req.account_name = Some("Wallet".to_string());
    let t = l.record_transaction(1, &req, today()).unwrap();
    assert_eq!(l.accounts.len(), 1);
    assert_eq!(l.accounts[0].name, "Wallet");
    assert_eq!(l.accounts[0].currency, "USD");
    assert_eq!(t.account_id, l.accounts[0].id);
    assert_eq!(l.accounts[0].balance, units(2_500_000_000));
}

#[test]
fn category_reuse_is_exact_case_sensitive() {
    let mut l = Ledger::new();
    let a = l.create_account(1, &account_req("Checking")).unwrap();
    let mut r1 = txn_req(a.id, "-5", Some("2026-10-01"));
    r1.category_name = Some("Food".to_string());
    let t1 = l.record_transaction(1, &r1, today()).unwrap();
    let mut r2 = txn_req(a.id, "-6", Some("2026-10-02"));
    r2.category_name = Some("Food".to_string());
    let t2 = l.record_transaction(1, &r2, today()).unwrap();
    assert_eq!(t1.category_id, t2.category_id);
    assert_eq!(l.categories.len(), 1);
    // a differently cased name is another category
    let mut r3 = txn_req(a.id, "-7", Some("2026-10-03"));
    r3.category_name = Some("food".to_string());
    let t3 = l.record_transaction(1, &r3, today()).unwrap();
    assert_ne!(t1.category_id, t3.category_id);
    assert_eq!(l.categories.len(), 2);
    // naming both ways at once is refused
    let mut r4 = txn_req(a.id, "-8", None);
    r4.category_id = t1.category_id;
    r4.category_name = Some("Food".to_string());
    let err = l.record_transaction(1, &r4, today()).unwrap_err();
    assert!(matches!(err, LedgerError::AmbiguousRef(EntityKind::Category)));
}

#[test]
fn transfer_moves_money_atomically() {
    // accounts A (100) and B (0); transfer 30 leaves 70 and 30 and exactly
    // two transfer-kind postings of -30 and +30
    let mut l = Ledger::new();
    let a = l.create_account(1, &account_req("A")).unwrap();
    let b = l.create_account(1, &account_req("B")).unwrap();
    l.record_transaction(1, &txn_req(a.id, "100", Some("2026-10-01")), today()).unwrap();
    let req = TransferRequest {
        from_account_id: a.id,
        to_account_id: b.id,
        amount: "30".to_string(),
        date: Some("2026-10-05".to_string()),
        description: None,
    };
    let before_combined = 10_000_000_000i128;
    let (t1, t2) = l.transfer(1, &req, today()).unwrap();
    assert_eq!(l.accounts[0].balance, units(7_000_000_000));
    assert_eq!(l.accounts[1].balance, units(3_000_000_000));
    // the two legs cancel and the combined balance is untouched
    assert_eq!(t1.amount.checked_add(&t2.amount), Some(Money::zero()));
    assert_eq!(
        l.accounts[0].balance.checked_add(&l.accounts[1].balance),
        Some(units(before_combined))
    );
    assert_eq!(t1.amount, units(-3_000_000_000));
    assert_eq!(t2.amount, units(3_000_000_000));
    assert_eq!(t1.kind, TransactionKind::Transfer);
    assert_eq!(t2.kind, TransactionKind::Transfer);
    assert_eq!(t1.account_id, a.id);
    assert_eq!(t2.account_id, b.id);
    assert_eq!(t1.date, t2.date);
    assert_eq!(t1.description, t2.description);
    let transfers = l
        .transactions
        .iter()
        .filter(|t| t.kind == TransactionKind::Transfer)
        .count();
    assert_eq!(transfers, 2);
    // the default description names both accounts
    let req2 = TransferRequest {
        from_account_id: a.id,
        to_account_id: b.id,
        amount: "1".to_string(),
        date: None,
        description: None,
    };
    let (t3, _) = l.transfer(1, &req2, today()).unwrap();
    assert_eq!(t3.description.as_deref(), Some("Transfer from account 1 to account 2"));
}

#[test]
fn insufficient_funds_leaves_no_trace() {
    // balance 10; asking for 10.01 fails and changes nothing
    let mut l = Ledger::new();
    let a = l.create_account(1, &account_req("A")).unwrap();
    let b = l.create_account(1, &account_req("B")).unwrap();
    l.record_transaction(1, &txn_req(a.id, "10", Some("2026-10-01")), today()).unwrap();
    let txns_before = l.transactions.len();
    let req = TransferRequest {
        from_account_id: a.id,
        to_account_id: b.id,
        amount: "10.01".to_string(),
        date: None,
        description: None,
    };
    let err = l.transfer(1, &req, today()).unwrap_err();
    match err {
        LedgerError::InsufficientFunds { balance, requested } => {
            assert_eq!(balance, units(1_000_000_000));
            assert_eq!(requested, units(1_001_000_000));
        },
        other => panic!("unexpected error {:?}", other),
    }
    assert_eq!(l.accounts[0].balance, units(1_000_000_000));
    assert_eq!(l.accounts[1].balance, Money::zero());
    assert_eq!(l.transactions.len(), txns_before);
}

#[test]
fn transfer_rejects_same_account_and_bad_amounts() {
    let mut l = Ledger::new();
    let a = l.create_account(1, &account_req("A")).unwrap();
    let b = l.create_account(1, &account_req("B")).unwrap();
    l.record_transaction(1, &txn_req(a.id, "50", Some("2026-10-01")), today()).unwrap();
    let mut req = TransferRequest {
        from_account_id: a.id,
        to_account_id: a.id,
        amount: "5".to_string(),
        date: None,
        description: None,
    };
    let err = l.transfer(1, &req, today()).unwrap_err();
    assert!(matches!(err, LedgerError::SameAccount));
    req.to_account_id = b.id;
    req.amount = "-5".to_string();
    let err = l.transfer(1, &req, today()).unwrap_err();
    assert!(matches!(err, LedgerError::NonPositiveTransferAmount));
    req.amount = "junk".to_string();
    let err = l.transfer(1, &req, today()).unwrap_err();
    assert!(matches!(err, LedgerError::BadAmount));
    req.from_account_id = 999;
    req.amount = "5".to_string();
    let err = l.transfer(1, &req, today()).unwrap_err();
    assert!(matches!(err, LedgerError::NotFound(EntityKind::FromAccount, RefAction::Use)));
    req.from_account_id = a.id;
    req.to_account_id = 999;
    let err = l.transfer(1, &req, today()).unwrap_err();
    assert!(matches!(err, LedgerError::NotFound(EntityKind::ToAccount, RefAction::Use)));
}

#[test]
fn opposite_postings_cancel_in_either_order() {
    // two postings of -5 and +5 against a balance of zero end at zero,
    // whichever lands first
    for flip in [false, true] {
        let mut l = Ledger::new();
        let a = l.create_account(1, &account_req("A")).unwrap();
        let (first, second) = if flip { ("5", "-5") } else { ("-5", "5") };
        l.record_transaction(1, &txn_req(a.id, first, Some("2026-10-01")), today()).unwrap();
        l.record_transaction(1, &txn_req(a.id, second, Some("2026-10-01")), today()).unwrap();
        assert_eq!(l.accounts[0].balance, Money::zero());
    }
}

#[test]
fn listing_is_newest_first() {
    let mut l = Ledger::new();
    let a = l.create_account(1, &account_req("A")).unwrap();
    let b = l.create_account(1, &account_req("B")).unwrap();
    let t1 = l.record_transaction(1, &txn_req(a.id, "1", Some("2026-10-01")), today()).unwrap();
    let t2 = l.record_transaction(1, &txn_req(a.id, "2", Some("2026-10-03")), today()).unwrap();
    let t3 = l.record_transaction(1, &txn_req(b.id, "3", Some("2026-10-02")), today()).unwrap();
    let t4 = l.record_transaction(1, &txn_req(a.id, "4", Some("2026-10-03")), today()).unwrap();
    let all = l.list_transactions(1, None, None, None);
    let ids: Vec<i32> = all.iter().map(|t| t.id).collect();
    // newest date first; one date: newest creation first
    assert_eq!(ids, vec![t4.id, t2.id, t3.id, t1.id]);
    let only_a = l.list_transactions(1, Some(a.id), None, None);
    let ids: Vec<i32> = only_a.iter().map(|t| t.id).collect();
    assert_eq!(ids, vec![t4.id, t2.id, t1.id]);
    let ranged = l.list_transactions(
        1,
        None,
        Some(Date::new(2026, 10, 2)),
        Some(Date::new(2026, 10, 2)),
    );
    let ids: Vec<i32> = ranged.iter().map(|t| t.id).collect();
    assert_eq!(ids, vec![t3.id]);
    // the query interface parses its bounds
    let q = GetTransactionsQuery {
        account_id: None,
        start_date: Some("2026-99-01".to_string()),
        end_date: None,
    };
    assert!(matches!(l.get_transactions(1, &q).unwrap_err(), LedgerError::BadStartDate));
    let q = GetTransactionsQuery {
        account_id: None,
        start_date: None,
        end_date: Some("oops".to_string()),
    };
    assert!(matches!(l.get_transactions(1, &q).unwrap_err(), LedgerError::BadEndDate));
}

#[test]
fn update_and_delete_accounts() {
    let mut l = Ledger::new();
    let a = l.create_account(1, &account_req("Old")).unwrap();
    let renamed = l
        .update_account(1, a.id, &UpdateAccountRequest { name: "New".to_string() })
        .unwrap();
    assert_eq!(renamed.name, "New");
    let err = l
        .update_account(2, a.id, &UpdateAccountRequest { name: "Nope".to_string() })
        .unwrap_err();
    assert!(matches!(err, LedgerError::NotFound(EntityKind::Account, RefAction::Update)));
    let err = l.delete_account(2, a.id).unwrap_err();
    assert!(matches!(err, LedgerError::NotFound(EntityKind::Account, RefAction::Delete)));
    l.delete_account(1, a.id).unwrap();
    assert!(l.accounts.is_empty());
}

#[test]
fn category_deletion_respects_children() {
    let mut l = Ledger::new();
    let parent = l
        .create_category(
            1,
            &ledger_core::models::CreateCategoryRequest { name: "Top".to_string(), parent_id: None },
        )
        .unwrap();
    let child = l
        .create_category(
            1,
            &ledger_core::models::CreateCategoryRequest {
                name: "Sub".to_string(),
                parent_id: Some(parent.id),
            },
        )
        .unwrap();
    let err = l.delete_category(1, parent.id).unwrap_err();
    assert!(matches!(err, LedgerError::HasChildren));
    l.delete_category(1, child.id).unwrap();
    l.delete_category(1, parent.id).unwrap();
    assert!(l.categories.is_empty());
    let err = l
        .create_category(
            1,
            &ledger_core::models::CreateCategoryRequest {
                name: "Lost".to_string(),
                parent_id: Some(99),
            },
        )
        .unwrap_err();
    assert!(matches!(err, LedgerError::NotFound(EntityKind::ParentCategory, RefAction::Use)));
}

#[test]
fn monthly_budget_on_food_spending() {
    // the worked scenario: a 42.50 expense on Food, a 100 budget on Food
    let mut l = Ledger::new();
    let a = l.create_account(1, &account_req("Checking")).unwrap();
    assert_eq!(a.balance, Money::zero());
    let mut r = txn_req(a.id, "-42.50", Some("2026-10-05"));
    r.category_name = Some("Food".to_string());
    let t = l.record_transaction(1, &r, today()).unwrap();
    let food_id = t.category_id.unwrap();
    let spent = l.spent_for(1, Some(food_id), &Some("monthly".to_string()), today(), today());
    assert_eq!(spent, units(4_250_000_000));
    let budget = l
        .create_budget(
            1,
            &CreateBudgetRequest {
                category_id: Some(food_id),
                amount: "100".to_string(),
                period: Some("monthly".to_string()),
                start_date: None,
            },
            today(),
        )
        .unwrap();
    assert_eq!(budget.spent, units(4_250_000_000));
    assert_eq!(budget.remaining, units(5_750_000_000));
    assert!(!budget.is_over_budget);
    assert_eq!(budget.category_name.as_deref(), Some("Food"));
}

#[test]
fn budget_with_no_matches_keeps_its_target() {
    let mut l = Ledger::new();
    let budget = l
        .create_budget(
            1,
            &CreateBudgetRequest {
                category_id: None,
                amount: "250".to_string(),
                period: Some("monthly".to_string()),
                start_date: None,
            },
            today(),
        )
        .unwrap();
    assert_eq!(budget.spent, Money::zero());
    assert_eq!(budget.remaining, units(25_000_000_000));
    assert!(!budget.is_over_budget);
}

#[test]
fn monthly_window_rolls_with_the_calendar() {
    // an expense from a past month does not count against a monthly budget,
    // but counts for an open-ended period from its anchor
    let mut l = Ledger::new();
    let a = l.create_account(1, &account_req("Checking")).unwrap();
    l.record_transaction(1, &txn_req(a.id, "-10", Some("2026-09-15")), today()).unwrap();
    let monthly = l.spent_for(1, None, &Some("monthly".to_string()), today(), today());
    assert_eq!(monthly, Money::zero());
    let since_anchor = l.spent_for(
        1,
        None,
        &Some("custom".to_string()),
        Date::new(2026, 9, 1),
        today(),
    );
    assert_eq!(since_anchor, units(1_000_000_000));
    let since_later = l.spent_for(
        1,
        None,
        &Some("custom".to_string()),
        Date::new(2026, 10, 1),
        today(),
    );
    assert_eq!(since_later, Money::zero());
}

#[test]
fn budget_lifecycle() {
    let mut l = Ledger::new();
    let err = l
        .create_budget(
            1,
            &CreateBudgetRequest {
                category_id: None,
                amount: "-5".to_string(),
                period: None,
                start_date: None,
            },
            today(),
        )
        .unwrap_err();
    assert!(matches!(err, LedgerError::NonPositiveBudgetAmount));
    let err = l
        .create_budget(
            1,
            &CreateBudgetRequest {
                category_id: None,
                amount: "x".to_string(),
                period: None,
                start_date: None,
            },
            today(),
        )
        .unwrap_err();
    assert!(matches!(err, LedgerError::BadAmount));
    let err = l
        .create_budget(
            1,
            &CreateBudgetRequest {
                category_id: Some(9),
                amount: "10".to_string(),
                period: None,
                start_date: None,
            },
            today(),
        )
        .unwrap_err();
    assert!(matches!(err, LedgerError::NotFound(EntityKind::Category, RefAction::Use)));
    let made = l
        .create_budget(
            1,
            &CreateBudgetRequest {
                category_id: None,
                amount: "10".to_string(),
                period: None,
                start_date: Some("2026-01-01".to_string()),
            },
            today(),
        )
        .unwrap();
    assert_eq!(made.start_date, Date::new(2026, 1, 1));
    let updated = l
        .update_budget(
            1,
            made.id,
            &UpdateBudgetRequest {
                amount: "20".to_string(),
                period: Some("weekly".to_string()),
                start_date: Some("2026-02-01".to_string()),
            },
            today(),
        )
        .unwrap();
    assert_eq!(updated.amount, units(2_000_000_000));
    assert_eq!(updated.start_date, Date::new(2026, 2, 1));
    let err = l
        .update_budget(
            2,
            made.id,
            &UpdateBudgetRequest { amount: "20".to_string(), period: None, start_date: None },
            today(),
        )
        .unwrap_err();
    assert!(matches!(err, LedgerError::NotFound(EntityKind::Budget, RefAction::Update)));
    let err = l.delete_budget(2, made.id).unwrap_err();
    assert!(matches!(err, LedgerError::NotFound(EntityKind::Budget, RefAction::Delete)));
    l.delete_budget(1, made.id).unwrap();
    assert!(l.budgets.is_empty());
    let listed = l.get_budgets(1, today());
    assert!(listed.is_empty());
}

#[test]
fn listings_are_scoped_per_owner_and_newest_first() {
    let mut l = Ledger::new();
    let mine = l.create_account(1, &account_req("Mine")).unwrap();
    let later = l.create_account(1, &account_req("Later")).unwrap();
    let theirs = l.create_account(2, &account_req("Theirs")).unwrap();
    let accounts = l.get_accounts(1);
    let names: Vec<&str> = accounts.iter().map(|a| a.name.as_str()).collect();
    assert_eq!(names, vec!["Later", "Mine"]);
    assert_eq!(l.get_accounts(2).len(), 1);
    let _ = (mine, later, theirs);
}

#[test]
fn recording_with_the_clock_date() {
    // exercises the clock read: the posting lands with a real date
    let mut l = Ledger::new();
    let a = l.create_account(1, &account_req("Checking")).unwrap();
    let t = l.record_transaction_now(1, &txn_req(a.id, "5", None)).unwrap();
    assert_eq!(t.amount, units(500_000_000));
    assert!(1 <= t.date.month && t.date.month <= 12);
    assert!(1 <= t.date.day && t.date.day <= 31);
    assert_eq!(l.transactions.len(), 1);
}

#[test]
fn transferring_with_the_clock_date() {
    let mut l = Ledger::new();
    let a = l.create_account(1, &account_req("A")).unwrap();
    let b = l.create_account(1, &account_req("B")).unwrap();
    l.record_transaction(1, &txn_req(a.id, "9", Some("2026-10-01")), today()).unwrap();
    let req = TransferRequest {
        from_account_id: a.id,
        to_account_id: b.id,
        amount: "4".to_string(),
        date: None,
        description: None,
    };
    let (t1, t2) = l.transfer_now(1, &req).unwrap();
    assert_eq!(t1.date, t2.date);
    assert!(1 <= t1.date.month && t1.date.month <= 12);
    assert_eq!(l.accounts[0].balance, units(500_000_000));
    assert_eq!(l.accounts[1].balance, units(400_000_000));
}
