//! The data the ledger core owns and the request and response shapes the
//! interface exchanges with it.

use crate::dates::Date;
use crate::money::Money;
use vstd::prelude::*;

verus! {

/// A display name of one to fifty characters.
pub open spec fn valid_name(s: Seq<char>) -> bool {
    1 <= s.len() <= 50
}

/// Checks the one-to-fifty-character rule on a name.
pub fn check_name(s: &String) -> (r: bool)
    ensures
        r == valid_name(s@),
{
    let n = s.as_str().unicode_len();
    1 <= n && n <= 50
}

/// How a posting moves money; derived from the amount's sign for ordinary
/// postings and fixed for the two legs of a transfer.
#[derive(Clone, Copy, PartialEq, Eq, Structural, Debug)]
pub enum TransactionKind {
    Income,
    Expense,
    Transfer,
}

impl TransactionKind {
    /// The lower-case word the interface shows for the kind.
    pub fn as_text(&self) -> (r: &'static str)
        ensures
            *self is Income ==> r@ == "income"@,
            *self is Expense ==> r@ == "expense"@,
            *self is Transfer ==> r@ == "transfer"@,
    {
        match self {
            TransactionKind::Income => "income",
            TransactionKind::Expense => "expense",
            TransactionKind::Transfer => "transfer",
        }
    }
}

/// An owned, named monetary bucket with a running balance.
#[derive(Clone, Debug)]
pub struct Account {
    pub id: i32,
    pub user_id: i32,
    pub name: String,
    pub currency: String,
    pub balance: Money,
}

/// A named classification for postings, optionally nested under a parent.
#[derive(Clone, Debug)]
pub struct Category {
    pub id: i32,
    pub user_id: i32,
    pub name: String,
    pub parent_id: Option<i32>,
}

/// One immutable signed posting against an account.
#[derive(Clone, Debug)]
pub struct Transaction {
    pub id: i32,
    pub user_id: i32,
    pub account_id: i32,
    pub category_id: Option<i32>,
    pub amount: Money,
    pub kind: TransactionKind,
    pub date: Date,
    pub description: Option<String>,
}

/// A spending ceiling for a category (or all categories) over a period.
#[derive(Clone, Debug)]
pub struct Budget {
    pub id: i32,
    pub user_id: i32,
    pub category_id: Option<i32>,
    pub amount: Money,
    pub period: Option<String>,
    pub start_date: Date,
}

/// The caller identity the session layer hands the core.
#[derive(Clone, Debug)]
pub struct AuthUser {
    pub user_id: i32,
    pub token: String,
}

#[derive(Clone, Debug)]
pub struct RegisterRequest {
    pub username: String,
    pub password: String,
}

#[derive(Clone, Debug)]
pub struct LoginRequest {
    pub username: String,
    pub password: String,
}

#[derive(Clone, Debug)]
pub struct RegisterResponse {
    pub message: String,
    pub user_id: i32,
}

#[derive(Clone, Debug)]
pub struct LoginResponse {
    pub message: String,
    pub token: String,
    pub user_id: i32,
}

#[derive(Clone, Debug)]
pub struct LogoutResponse {
    pub message: String,
}

#[derive(Clone, Debug)]
pub struct ErrorResponse {
    pub error: String,
}

#[derive(Clone, Debug)]
pub struct CreateAccountRequest {
    pub name: String,
    pub currency: Option<String>,
}

#[derive(Clone, Debug)]
pub struct UpdateAccountRequest {
    pub name: String,
}

#[derive(Clone, Debug)]
pub struct DeleteAccountResponse {
    pub message: String,
}

#[derive(Clone, Debug)]
pub struct AccountResponse {
    pub id: i32,
    pub name: String,
    pub currency: String,
    pub balance: Money,
}

#[derive(Clone, Debug)]
pub struct CreateCategoryRequest {
    pub name: String,
    pub parent_id: Option<i32>,
}

#[derive(Clone, Debug)]
pub struct DeleteCategoryResponse {
    pub message: String,
}

#[derive(Clone, Debug)]
pub struct CategoryResponse {
    pub id: i32,
    pub name: String,
    pub parent_id: Option<i32>,
}

#[derive(Clone, Debug)]
pub struct CreateTransactionRequest {
    pub account_id: Option<i32>,
    pub account_name: Option<String>,
    pub amount: String,
    pub date: Option<String>,
    pub category_id: Option<i32>,
    pub category_name: Option<String>,
    pub description: Option<String>,
}

#[derive(Clone, Debug)]
pub struct TransferRequest {
    pub from_account_id: i32,
    pub to_account_id: i32,
    pub amount: String,
    pub date: Option<String>,
    pub description: Option<String>,
}

#[derive(Clone, Debug)]
pub struct GetTransactionsQuery {
    pub account_id: Option<i32>,
    pub start_date: Option<String>,
    pub end_date: Option<String>,
}

/// A posting joined with the display names its account and category carry.
#[derive(Clone, Debug)]
pub struct TransactionResponse {
    pub id: i32,
    pub account_id: i32,
    pub account_name: String,
    pub category_id: Option<i32>,
    pub category_name: Option<String>,
    pub amount: Money,
    pub kind: TransactionKind,
    pub date: Date,
    pub description: Option<String>,
}

#[derive(Clone, Debug)]
pub struct CreateBudgetRequest {
    pub category_id: Option<i32>,
    pub amount: String,
    pub period: Option<String>,
    pub start_date: Option<String>,
}

#[derive(Clone, Debug)]
pub struct UpdateBudgetRequest {
    pub amount: String,
    pub period: Option<String>,
    pub start_date: Option<String>,
}

#[derive(Clone, Debug)]
pub struct DeleteBudgetResponse {
    pub message: String,
}

/// A budget together with the figures recomputed from the ledger at read
/// time: they are never stored, so they can never drift from it.
#[derive(Clone, Debug)]
pub struct BudgetResponse {
    pub id: i32,
    pub category_id: Option<i32>,
    pub category_name: Option<String>,
    pub amount: Money,
    pub period: Option<String>,
    pub start_date: Date,
    pub spent: Money,
    pub remaining: Money,
    pub is_over_budget: bool,
}

/// Projects an account onto what the interface shows of it.
pub fn account_to_response(account: &Account) -> (r: AccountResponse)
    ensures
        r.id == account.id,
        r.name@ == account.name@,
        r.currency@ == account.currency@,
        r.balance == account.balance,
{
    AccountResponse {
        id: account.id,
        name: account.name.clone(),
        currency: account.currency.clone(),
        balance: account.balance,
    }
}

/// Projects a category onto what the interface shows of it.
pub fn category_to_response(category: &Category) -> (r: CategoryResponse)
    ensures
        r.id == category.id,
        r.name@ == category.name@,
        r.parent_id == category.parent_id,
{
    CategoryResponse {
        id: category.id,
        name: category.name.clone(),
        parent_id: category.parent_id,
    }
}

} // verus!
