//! The session boundary: what the core decides about an already-fetched
//! session row, the token syntax of the authorization header, and the
//! entities a fresh user starts with. Issuing tokens and hashing passwords
//! stay with the outside collaborators.

use crate::errors::AppError;
use crate::ledger::Ledger;
use crate::models::{AuthUser, CreateAccountRequest, CreateCategoryRequest};
use vstd::prelude::*;
use vstd::string::StringExecFns;

verus! {

/// The header names a bearer token.
pub open spec fn bearer_prefixed(s: Seq<char>) -> bool {
    s.len() >= 7 && s.subrange(0, 7) == "Bearer "@
}

/// The token the authorization header carries: what follows the bearer
/// marker, or the whole header without one.
pub open spec fn token_of_header(s: Seq<char>) -> Seq<char> {
    if bearer_prefixed(s) {
        s.subrange(7, s.len() as int)
    } else {
        s
    }
}

fn bearer_char(j: usize) -> (c: char)
    requires
        j < 7,
    ensures
        c == "Bearer "@[j as int],
{
    proof {
        reveal_strlit("Bearer ");
    }
    if j == 0 {
        'B'
    } else if j == 1 {
        'e'
    } else if j == 2 {
        'a'
    } else if j == 3 {
        'r'
    } else if j == 4 {
        'e'
    } else if j == 5 {
        'r'
    } else {
        ' '
    }
}

/// Pulls the session token out of an authorization header value.
pub fn token_from_header(header: &str) -> (r: String)
    ensures
        r@ == token_of_header(header@),
{
    let n = header.unicode_len();
    if n < 7 {
        proof {
            reveal_strlit("Bearer ");
        }
        return header.to_owned();
    }
    let mut j: usize = 0;
    while j < 7
        invariant
            0 <= j <= 7,
            n == header@.len(),
            n >= 7,
            forall|x: int| 0 <= x < j ==> header@[x] == "Bearer "@[x],
        decreases 7 - j,
    {
        let c = header.get_char(j);
        if c != bearer_char(j) {
            proof {
                reveal_strlit("Bearer ");
                assert(header@.subrange(0, 7)[j as int] != "Bearer "@[j as int]);
            }
            return header.to_owned();
        }
        j = j + 1;
    }
    proof {
        reveal_strlit("Bearer ");
        assert(header@.subrange(0, 7) =~= "Bearer "@);
    }
    let rest = header.substring_char(7, n);
    rest.to_owned()
}

/// Decides a fetched session: invalidated and expired sessions are turned
/// away, anything else authenticates its user.
pub fn verify_session(
    user_id: i32,
    token: String,
    is_valid: bool,
    expires_at: i64,
    now: i64,
) -> (r: Result<AuthUser, AppError>)
    ensures
        !is_valid ==> r is Err && (r matches Err(e) ==> e is Unauthorized),
        is_valid && expires_at < now ==> r is Err && (r matches Err(e) ==> e is Unauthorized),
        is_valid && expires_at >= now ==> (r matches Ok(u) && u.user_id == user_id && u.token@
            == token@),
{
    if !is_valid {
        return Err(AppError::Unauthorized(String::from_str("Session has been invalidated")));
    }
    if expires_at < now {
        return Err(AppError::Unauthorized(String::from_str("Session has expired")));
    }
    Ok(AuthUser { user_id, token })
}

/// Checks registration input: a username of one to fifty characters and a
/// password of at least six.
pub fn validate_registration(username: &String, password: &String) -> (r: Option<AppError>)
    ensures
        (username@.len() == 0 || username@.len() > 50) ==> r is Some && (r matches Some(e) ==> e
            is BadRequest),
        1 <= username@.len() <= 50 && password@.len() < 6 ==> r is Some && (r matches Some(e)
            ==> e is BadRequest),
        1 <= username@.len() <= 50 && password@.len() >= 6 ==> r is None,
{
    let ulen = username.as_str().unicode_len();
    if ulen == 0 || ulen > 50 {
        return Some(
            AppError::BadRequest(
                String::from_str("Username must be between 1 and 50 characters"),
            ),
        );
    }
    let plen = password.as_str().unicode_len();
    if plen < 6 {
        return Some(
            AppError::BadRequest(String::from_str("Password must be at least 6 characters")),
        );
    }
    None
}

/// An account as the seeding creates it: the given name, the default
/// currency, and nothing in it yet.
pub open spec fn seeded_account(a: crate::models::Account, id: int, owner: int, name: Seq<char>) -> bool {
    &&& a.id as int == id
    &&& a.user_id as int == owner
    &&& a.name@ == name
    &&& a.currency@ == "USD"@
    &&& a.balance.v() == 0
}

/// A category as the seeding creates it: the given name, no parent.
pub open spec fn seeded_category(c: crate::models::Category, id: int, owner: int, name: Seq<char>) -> bool {
    &&& c.id as int == id
    &&& c.user_id as int == owner
    &&& c.name@ == name
    &&& c.parent_id is None
}

/// Creates the entities a fresh user starts with: the Checking and Savings
/// buckets with the default currency and zero balances, and the Salary,
/// Food, Rent and Travel categories, all owned by the new user.
#[verifier::rlimit(30)]
pub fn seed_defaults(ledger: &mut Ledger, owner: i32) -> (r: Result<(), crate::errors::LedgerError>)
    requires
        old(ledger).wf(),
        old(ledger).next_account_id as int + 2 <= i32::MAX as int,
        old(ledger).next_category_id as int + 4 <= i32::MAX as int,
    ensures
        final(ledger).wf(),
        r is Ok,
        final(ledger).accounts@.len() == old(ledger).accounts@.len() + 2,
        forall|i: int|
            0 <= i < old(ledger).accounts@.len() ==> final(ledger).accounts@[i] == old(
                ledger,
            ).accounts@[i],
        seeded_account(
            final(ledger).accounts@[old(ledger).accounts@.len() as int],
            old(ledger).next_account_id as int,
            owner as int,
            "Checking"@,
        ),
        seeded_account(
            final(ledger).accounts@[old(ledger).accounts@.len() as int + 1],
            old(ledger).next_account_id as int + 1,
            owner as int,
            "Savings"@,
        ),
        final(ledger).next_account_id as int == old(ledger).next_account_id as int + 2,
        final(ledger).categories@.len() == old(ledger).categories@.len() + 4,
        forall|i: int|
            0 <= i < old(ledger).categories@.len() ==> final(ledger).categories@[i] == old(
                ledger,
            ).categories@[i],
        seeded_category(
            final(ledger).categories@[old(ledger).categories@.len() as int],
            old(ledger).next_category_id as int,
            owner as int,
            "Salary"@,
        ),
        seeded_category(
            final(ledger).categories@[old(ledger).categories@.len() as int + 1],
            old(ledger).next_category_id as int + 1,
            owner as int,
            "Food"@,
        ),
        seeded_category(
            final(ledger).categories@[old(ledger).categories@.len() as int + 2],
            old(ledger).next_category_id as int + 2,
            owner as int,
            "Rent"@,
        ),
        seeded_category(
            final(ledger).categories@[old(ledger).categories@.len() as int + 3],
            old(ledger).next_category_id as int + 3,
            owner as int,
            "Travel"@,
        ),
        final(ledger).next_category_id as int == old(ledger).next_category_id as int + 4,
        final(ledger).transactions@ == old(ledger).transactions@,
        final(ledger).budgets@ == old(ledger).budgets@,
{
    proof {
        reveal_strlit("Checking");
        reveal_strlit("Savings");
        reveal_strlit("Salary");
        reveal_strlit("Food");
        reveal_strlit("Rent");
        reveal_strlit("Travel");
    }
    let checking = CreateAccountRequest { name: String::from_str("Checking"), currency: None };
    let _ = ledger.create_account(owner, &checking);
    let savings = CreateAccountRequest { name: String::from_str("Savings"), currency: None };
    let _ = ledger.create_account(owner, &savings);
    let salary = CreateCategoryRequest { name: String::from_str("Salary"), parent_id: None };
    let _ = ledger.create_category(owner, &salary);
    let food = CreateCategoryRequest { name: String::from_str("Food"), parent_id: None };
    let _ = ledger.create_category(owner, &food);
    let rent = CreateCategoryRequest { name: String::from_str("Rent"), parent_id: None };
    let _ = ledger.create_category(owner, &rent);
    let travel = CreateCategoryRequest { name: String::from_str("Travel"), parent_id: None };
    let _ = ledger.create_category(owner, &travel);
    Ok(())
}

} // verus!
