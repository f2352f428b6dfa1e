//! The failure taxonomy of the ledger core, and its mapping onto the
//! interface-level error the request layer serves.

use crate::money::Money;
use vstd::prelude::*;
use vstd::string::StringExecFns;

verus! {

/// Which entity a failure speaks of.
#[derive(Clone, Copy, PartialEq, Eq, Structural, Debug)]
pub enum EntityKind {
    Account,
    FromAccount,
    ToAccount,
    Category,
    ParentCategory,
    Budget,
}

/// What the caller was doing with the entity; only the wording of the
/// surfaced message depends on it.
#[derive(Clone, Copy, PartialEq, Eq, Structural, Debug)]
pub enum RefAction {
    Use,
    Update,
    Delete,
}

/// A structured failure of a ledger operation.
#[derive(Clone, Copy, PartialEq, Eq, Structural, Debug)]
pub enum LedgerError {
    /// A name is empty or longer than fifty characters.
    BadName(EntityKind),
    /// Neither identifier nor name was supplied where one is expected.
    MissingRef(EntityKind),
    /// Both identifier and name were supplied where one is expected.
    AmbiguousRef(EntityKind),
    /// The amount text does not parse, or leaves the working range.
    BadAmount,
    /// A posted amount is zero.
    ZeroAmount,
    /// A transfer amount is not strictly positive.
    NonPositiveTransferAmount,
    /// A budget target is not strictly positive.
    NonPositiveBudgetAmount,
    /// A transaction date text is not a valid `YYYY-MM-DD` date.
    BadDate,
    /// A budget start date text is not a valid `YYYY-MM-DD` date.
    BadStartDate,
    /// A listing end date text is not a valid `YYYY-MM-DD` date.
    BadEndDate,
    /// The entity is absent or owned by someone else.
    NotFound(EntityKind, RefAction),
    /// Both transfer endpoints are one account.
    SameAccount,
    /// The category still has children.
    HasChildren,
    /// The source account holds less than the requested amount.
    InsufficientFunds { balance: Money, requested: Money },
    /// An identifier or balance left the range the store can hold.
    OutOfRange,
}

/// The error the request layer answers with.
#[derive(Clone, Debug)]
pub enum AppError {
    BadRequest(String),
    Unauthorized(String),
    InternalServerError(String),
}

impl AppError {
    /// The HTTP status the variant is served with.
    pub fn status_code(&self) -> (r: u16)
        ensures
            r == match *self {
                AppError::BadRequest(_) => 400u16,
                AppError::Unauthorized(_) => 401u16,
                AppError::InternalServerError(_) => 500u16,
            },
    {
        match self {
            AppError::BadRequest(_) => 400,
            AppError::Unauthorized(_) => 401,
            AppError::InternalServerError(_) => 500,
        }
    }

    /// The message carried by any of the variants.
    pub fn message(&self) -> (r: &String)
        ensures
            r@ == match *self {
                AppError::BadRequest(m) => m@,
                AppError::Unauthorized(m) => m@,
                AppError::InternalServerError(m) => m@,
            },
    {
        match self {
            AppError::BadRequest(m) => m,
            AppError::Unauthorized(m) => m,
            AppError::InternalServerError(m) => m,
        }
    }
}

/// The wording a missing or foreign entity surfaces with.
pub open spec fn not_found_text(kind: EntityKind, action: RefAction) -> Seq<char> {
    (match kind {
        EntityKind::Account => "Account not found or you don't have permission to "@,
        EntityKind::FromAccount => "From account not found or you don't have permission to "@,
        EntityKind::ToAccount => "To account not found or you don't have permission to "@,
        EntityKind::Category => "Category not found or you don't have permission to "@,
        EntityKind::ParentCategory => "Parent category not found or you don't have permission to "@,
        EntityKind::Budget => "Budget not found or you don't have permission to "@,
    }) + (match action {
        RefAction::Use => "use it"@,
        RefAction::Update => "update it"@,
        RefAction::Delete => "delete it"@,
    })
}

/// The exact wording each failure surfaces with; the insufficient-funds
/// message carries the observed balance and the requested amount.
pub open spec fn error_message(e: LedgerError) -> Seq<char> {
    match e {
        LedgerError::BadName(EntityKind::Category) => "Category name must be between 1 and 50 characters"@,
        LedgerError::BadName(_) => "Account name must be between 1 and 50 characters"@,
        LedgerError::MissingRef(_) => "Either account_id or account_name must be provided"@,
        LedgerError::AmbiguousRef(_) => "Provide either category_id or category_name, not both"@,
        LedgerError::BadAmount => "Invalid amount format"@,
        LedgerError::ZeroAmount => "Amount cannot be zero"@,
        LedgerError::NonPositiveTransferAmount => "Transfer amount must be positive"@,
        LedgerError::NonPositiveBudgetAmount => "Budget amount must be positive"@,
        LedgerError::BadDate => "Invalid date format. Use YYYY-MM-DD"@,
        LedgerError::BadStartDate => "Invalid start_date format. Use YYYY-MM-DD"@,
        LedgerError::BadEndDate => "Invalid end_date format. Use YYYY-MM-DD"@,
        LedgerError::NotFound(kind, action) => not_found_text(kind, action),
        LedgerError::SameAccount => "Cannot transfer to the same account"@,
        LedgerError::HasChildren => "Cannot delete category with child categories"@,
        LedgerError::InsufficientFunds { balance, requested } => "Insufficient balance. Account has "@
            + crate::money::money_text(balance.v()) + ", but trying to transfer "@
            + crate::money::money_text(requested.v()),
        LedgerError::OutOfRange => "Amount is outside the supported range"@,
    }
}

fn not_found_message(kind: EntityKind, action: RefAction) -> (r: String)
    ensures
        r@ == not_found_text(kind, action),
{
    let mut m = String::new();
    m.append(
        match kind {
            EntityKind::Account => "Account not found or you don't have permission to ",
            EntityKind::FromAccount => "From account not found or you don't have permission to ",
            EntityKind::ToAccount => "To account not found or you don't have permission to ",
            EntityKind::Category => "Category not found or you don't have permission to ",
            EntityKind::ParentCategory => "Parent category not found or you don't have permission to ",
            EntityKind::Budget => "Budget not found or you don't have permission to ",
        },
    );
    m.append(
        match action {
            RefAction::Use => "use it",
            RefAction::Update => "update it",
            RefAction::Delete => "delete it",
        },
    );
    proof {
        assert(m@ =~= not_found_text(kind, action));
    }
    m
}

impl LedgerError {
    /// Every ledger failure is the caller's to mend: it surfaces as a bad
    /// request, worded for the interface.
    pub fn to_app_error(&self) -> (r: AppError)
        requires
            match *self {
                LedgerError::InsufficientFunds { balance, requested } => balance.wf()
                    && requested.wf(),
                _ => true,
            },
        ensures
            r is BadRequest,
            r matches AppError::BadRequest(m) && m@ == error_message(*self),
    {
        match self {
            LedgerError::BadName(EntityKind::Category) => AppError::BadRequest(
                String::from_str("Category name must be between 1 and 50 characters"),
            ),
            LedgerError::BadName(_) => AppError::BadRequest(
                String::from_str("Account name must be between 1 and 50 characters"),
            ),
            LedgerError::MissingRef(_) => AppError::BadRequest(
                String::from_str("Either account_id or account_name must be provided"),
            ),
            LedgerError::AmbiguousRef(_) => AppError::BadRequest(
                String::from_str("Provide either category_id or category_name, not both"),
            ),
            LedgerError::BadAmount => AppError::BadRequest(
                String::from_str("Invalid amount format"),
            ),
            LedgerError::ZeroAmount => AppError::BadRequest(
                String::from_str("Amount cannot be zero"),
            ),
            LedgerError::NonPositiveTransferAmount => AppError::BadRequest(
                String::from_str("Transfer amount must be positive"),
            ),
            LedgerError::NonPositiveBudgetAmount => AppError::BadRequest(
                String::from_str("Budget amount must be positive"),
            ),
            LedgerError::BadDate => AppError::BadRequest(
                String::from_str("Invalid date format. Use YYYY-MM-DD"),
            ),
            LedgerError::BadStartDate => AppError::BadRequest(
                String::from_str("Invalid start_date format. Use YYYY-MM-DD"),
            ),
            LedgerError::BadEndDate => AppError::BadRequest(
                String::from_str("Invalid end_date format. Use YYYY-MM-DD"),
            ),
            LedgerError::NotFound(kind, action) => AppError::BadRequest(
                not_found_message(*kind, *action),
            ),
            LedgerError::SameAccount => AppError::BadRequest(
                String::from_str("Cannot transfer to the same account"),
            ),
            LedgerError::HasChildren => AppError::BadRequest(
                String::from_str("Cannot delete category with child categories"),
            ),
            LedgerError::InsufficientFunds { balance, requested } => {
                let mut m = String::from_str("Insufficient balance. Account has ");
                let b = balance.to_text();
                m.append(b.as_str());
                m.append(", but trying to transfer ");
                let q = requested.to_text();
                m.append(q.as_str());
                proof {
                    assert(m@ =~= error_message(*self));
                }
                AppError::BadRequest(m)
            },
            LedgerError::OutOfRange => AppError::BadRequest(
                String::from_str("Amount is outside the supported range"),
            ),
        }
    }
}

} // verus!
