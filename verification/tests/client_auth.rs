use ledger_core::auth::{token_from_header, validate_registration, verify_session, seed_defaults};
use ledger_core::errors::{EntityKind, LedgerError, RefAction};
use ledger_core::client::{
    check_new_name, check_transfer_ids, next_index, prev_index, resolve_category, NameCheck,
    TransferIdCheck,
};
use ledger_core::errors::AppError;
use ledger_core::ledger::Ledger;
use ledger_core::models::{AccountResponse, CategoryResponse};
use ledger_core::money::Money;
use ledger_core::text::parse_i32;

fn cat(id: i32, name: &str) -> CategoryResponse {
    CategoryResponse { id, name: name.to_string(), parent_id: None }
}

fn acct(id: i32, name: &str) -> AccountResponse {
    AccountResponse {
        id,
        name: name.to_string(),
        currency: "USD".to_string(),
        balance: Money::zero(),
    }
}

#[test]
fn list_navigation_wraps() {
    assert_eq!(next_index(None, 3), 0);
    assert_eq!(next_index(Some(0), 3), 1);
    assert_eq!(next_index(Some(2), 3), 0);
    assert_eq!(next_index(Some(1), 0), 0);
    assert_eq!(prev_index(None, 3), 0);
    assert_eq!(prev_index(Some(0), 3), 2);
    assert_eq!(prev_index(Some(2), 3), 1);
    assert_eq!(prev_index(Some(1), 0), 0);
}

#[test]
fn parses_identifiers() {
    assert_eq!(parse_i32("42"), Some(42));
    assert_eq!(parse_i32("-17"), Some(-17));
    assert_eq!(parse_i32("+3"), Some(3));
    assert_eq!(parse_i32("2147483647"), Some(i32::MAX));
    assert_eq!(parse_i32("2147483648"), None);
    assert_eq!(parse_i32("-2147483648"), Some(i32::MIN));
    assert_eq!(parse_i32("-2147483649"), None);
    assert_eq!(parse_i32("0000000012"), Some(12));
    assert_eq!(parse_i32(""), None);
    assert_eq!(parse_i32("12a"), None);
    assert_eq!(parse_i32("1 2"), None);
}

#[test]
fn resolves_typed_categories() {
    let cats = vec![cat(4, "Food"), cat(9, "Rent")];
    assert_eq!(resolve_category(&cats, "4"), Some((4, "Food".to_string())));
    assert_eq!(resolve_category(&cats, " rent "), Some((9, "Rent".to_string())));
    assert_eq!(resolve_category(&cats, "FOOD"), Some((4, "Food".to_string())));
    assert_eq!(resolve_category(&cats, ""), None);
    assert_eq!(resolve_category(&cats, "  "), None);
    assert_eq!(resolve_category(&cats, "77"), None);
    assert_eq!(resolve_category(&cats, "Fuel"), None);
    // a number that is no identifier can still hit a name
    let named = vec![cat(1, "42")];
    assert_eq!(resolve_category(&named, "42"), Some((1, "42".to_string())));
    // an identifier match wins over a name match
    let tricky = vec![cat(7, "9"), cat(9, "7")];
    assert_eq!(resolve_category(&tricky, "9"), Some((9, "7".to_string())));
}

#[test]
fn checks_new_names() {
    let existing = vec!["Checking".to_string(), "Savings".to_string()];
    assert_eq!(check_new_name("Cash", &existing), NameCheck::Accepted);
    assert_eq!(check_new_name("   ", &existing), NameCheck::Empty);
    assert_eq!(check_new_name(&"y".repeat(51), &existing), NameCheck::TooLong);
    assert_eq!(check_new_name("checking", &existing), NameCheck::Duplicate);
    assert_eq!(check_new_name(" SAVINGS ", &existing), NameCheck::Duplicate);
}

#[test]
fn checks_transfer_endpoints() {
    let accounts = vec![acct(1, "A"), acct(2, "B")];
    assert_eq!(check_transfer_ids(1, 1, &accounts), TransferIdCheck::SameAccount);
    assert_eq!(check_transfer_ids(7, 2, &accounts), TransferIdCheck::FromMissing);
    assert_eq!(check_transfer_ids(1, 7, &accounts), TransferIdCheck::ToMissing);
    assert_eq!(check_transfer_ids(1, 2, &accounts), TransferIdCheck::Accepted);
}

#[test]
fn extracts_bearer_tokens() {
    assert_eq!(token_from_header("Bearer abc123"), "abc123");
    assert_eq!(token_from_header("abc123"), "abc123");
    assert_eq!(token_from_header("Bearer "), "");
    assert_eq!(token_from_header("Bear"), "Bear");
    assert_eq!(token_from_header("bearer abc"), "bearer abc");
}

#[test]
fn session_decisions() {
    let ok = verify_session(5, "tok".to_string(), true, 100, 50).unwrap();
    assert_eq!(ok.user_id, 5);
    assert_eq!(ok.token, "tok");
    let err = verify_session(5, "tok".to_string(), false, 100, 50).unwrap_err();
    assert!(matches!(err, AppError::Unauthorized(_)));
    let err = verify_session(5, "tok".to_string(), true, 49, 50).unwrap_err();
    assert!(matches!(err, AppError::Unauthorized(_)));
    assert_eq!(err.status_code(), 401);
}

#[test]
fn registration_validation() {
    assert!(validate_registration(&"ann".to_string(), &"secret".to_string()).is_none());
    assert!(matches!(
        validate_registration(&"".to_string(), &"secret".to_string()),
        Some(AppError::BadRequest(_))
    ));
    assert!(matches!(
        validate_registration(&"z".repeat(51), &"secret".to_string()),
        Some(AppError::BadRequest(_))
    ));
    assert!(matches!(
        validate_registration(&"ann".to_string(), &"short".to_string()),
        Some(AppError::BadRequest(_))
    ));
}

#[test]
fn fresh_users_start_with_defaults() {
    let mut l = Ledger::new();
    seed_defaults(&mut l, 3).unwrap();
    let names: Vec<&str> = l.accounts.iter().map(|a| a.name.as_str()).collect();
    assert_eq!(names, vec!["Checking", "Savings"]);
    let cats: Vec<&str> = l.categories.iter().map(|c| c.name.as_str()).collect();
    assert_eq!(cats, vec!["Salary", "Food", "Rent", "Travel"]);
    assert!(l.accounts.iter().all(|a| a.user_id == 3 && a.balance == Money::zero()));
    assert!(l.accounts.iter().all(|a| a.currency == "USD"));
    let account_ids: Vec<i32> = l.accounts.iter().map(|a| a.id).collect();
    assert_eq!(account_ids, vec![1, 2]);
    let category_ids: Vec<i32> = l.categories.iter().map(|c| c.id).collect();
    assert_eq!(category_ids, vec![1, 2, 3, 4]);
    assert!(l.categories.iter().all(|c| c.user_id == 3 && c.parent_id.is_none()));
}

#[test]
fn error_mapping_speaks_the_interface_language() {
    let e = LedgerError::SameAccount.to_app_error();
    assert!(matches!(&e, AppError::BadRequest(m) if m == "Cannot transfer to the same account"));
    assert_eq!(e.status_code(), 400);
    let e = LedgerError::NotFound(EntityKind::FromAccount, RefAction::Use).to_app_error();
    assert!(matches!(&e, AppError::BadRequest(m)
        if m == "From account not found or you don't have permission to use it"));
    let e = LedgerError::InsufficientFunds {
        balance: Money::from_units(1_000_000_000),
        requested: Money::from_units(1_001_000_000),
    }
    .to_app_error();
    assert!(matches!(&e, AppError::BadRequest(m)
        if m == "Insufficient balance. Account has 10, but trying to transfer 10.01"));
}
