//! The laws the ledger keeps, stated once and proved from what the store's
//! contracts and well-formedness already say.

use crate::budgets::{expense_matches, spec_eval, budget_monthly};
use crate::dates::Date;
use crate::errors::LedgerError;
use crate::ledger::{
    category_ref_effect, first_matching_category, record_ok_values, record_success_effect,
    req_amount, transfer_error, txn_sum, Ledger,
};
use crate::models::Category;
use crate::models::CreateTransactionRequest;
use crate::models::{Budget, Transaction, TransferRequest};
use crate::money::Money;
use vstd::prelude::*;

verus! {

/// Every account's balance equals the sum of the signed amounts of the
/// postings that reference it, in every well-formed store: recording keeps
/// balances derivable from the transaction history alone.
pub proof fn lemma_balance_is_posting_sum(l: Ledger, i: int)
    requires
        l.wf(),
        0 <= i < l.accounts@.len(),
    ensures
        l.accounts@[i].balance.v() == txn_sum(l.transactions@, l.accounts@[i].id as int),
{
}

/// A posting that succeeds against an identified account moves exactly that
/// account's balance, by exactly the posted amount, and keeps every other
/// account as it was: a run of successful postings leaves the balance at the
/// starting balance plus the sum of the recorded signed amounts.
pub proof fn lemma_posting_moves_balance(
    pre: Ledger,
    post: Ledger,
    owner: int,
    req: CreateTransactionRequest,
    t: Transaction,
    id: i32,
)
    requires
        req.account_id == Some(id),
        req.account_name is None,
        record_success_effect(pre, post, owner, req),
        record_ok_values(pre, post, owner, req, t),
    ensures
        post.accounts@.len() == pre.accounts@.len(),
        post.accounts@[pre.account_index(owner, id as int)].balance.v() == pre.accounts@[
            pre.account_index(owner, id as int)].balance.v() + req_amount(req),
        t.amount.v() == req_amount(req),
        forall|j: int|
            0 <= j < pre.accounts@.len() && j != pre.account_index(owner, id as int)
                ==> post.accounts@[j] == pre.accounts@[j],
{
    reveal(record_success_effect);
    reveal(record_ok_values);
}

/// A transfer that succeeds conserves money: the two legs sum to zero, and
/// the source and destination balances together are what they were.
pub proof fn lemma_transfer_conserves_money(
    pre: Ledger,
    post: Ledger,
    t1: Transaction,
    t2: Transaction,
    fidx: int,
    tidx: int,
    x: int,
)
    requires
        t1.amount.v() == -x,
        t2.amount.v() == x,
        0 <= fidx < pre.accounts@.len(),
        0 <= tidx < pre.accounts@.len(),
        post.accounts@.len() == pre.accounts@.len(),
        post.accounts@[fidx].balance.v() == pre.accounts@[fidx].balance.v() - x,
        post.accounts@[tidx].balance.v() == pre.accounts@[tidx].balance.v() + x,
    ensures
        t1.amount.v() + t2.amount.v() == 0,
        post.accounts@[fidx].balance.v() + post.accounts@[tidx].balance.v()
            == pre.accounts@[fidx].balance.v() + pre.accounts@[tidx].balance.v(),
{
}

/// Asking to move more than the source holds always fails with the
/// insufficient-funds error carrying the observed balance; the transfer
/// contract then leaves the store untouched.
pub proof fn lemma_transfer_insufficient_funds(l: Ledger, owner: int, req: TransferRequest, x: int)
    requires
        l.wf(),
        l.owned_account(owner, req.from_account_id as int),
        l.owned_account(owner, req.to_account_id as int),
        req.from_account_id != req.to_account_id,
        crate::money::money_of_text(crate::text::trimmed(req.amount@)) == Some(x),
        x > 0,
        l.accounts@[l.account_index(owner, req.from_account_id as int)].balance.v() < x,
    ensures
        transfer_error(l, owner, req) == Some(
            LedgerError::InsufficientFunds {
                balance: l.accounts@[l.account_index(owner, req.from_account_id as int)].balance,
                requested: Money::spec_new(x),
            },
        ),
{
    reveal(transfer_error);
}

/// A transfer between one and the same account always fails with the
/// same-account conflict, whatever the amount or the balance.
pub proof fn lemma_transfer_same_account(l: Ledger, owner: int, req: TransferRequest)
    requires
        l.wf(),
        l.owned_account(owner, req.from_account_id as int),
        req.from_account_id == req.to_account_id,
    ensures
        transfer_error(l, owner, req) == Some(LedgerError::SameAccount),
{
    reveal(transfer_error);
}

/// Appending a category extends the earliest-match search: an earlier match
/// still wins, and otherwise the appended category is found exactly when it
/// matches.
proof fn lemma_first_matching_push(s: Seq<Category>, c: Category, owner: int, name: Seq<char>)
    ensures
        first_matching_category(s.push(c), owner, name) == (match first_matching_category(
            s,
            owner,
            name,
        ) {
            Some(x) => Some(x),
            Option::<Category>::None => if c.user_id == owner && c.name@ == name {
                Some(c)
            } else {
                Option::<Category>::None
            },
        }),
    decreases s.len(),
{
    if s.len() == 0 {
        assert(s.push(c)[0] == c);
        assert(s.push(c).subrange(1, 1) =~= Seq::<Category>::empty());
        assert(first_matching_category(Seq::<Category>::empty(), owner, name) is None);
        assert(s =~= Seq::<Category>::empty());
    } else {
        let t = s.push(c);
        let s1 = s.subrange(1, s.len() as int);
        assert(t[0] == s[0]);
        assert(t.subrange(1, t.len() as int) =~= s1.push(c));
        lemma_first_matching_push(s1, c, owner, name);
        if s[0].user_id == owner && s[0].name@ == name {
            assert(first_matching_category(t, owner, name) == Some(s[0]));
            assert(first_matching_category(s, owner, name) == Some(s[0]));
        } else {
            assert(first_matching_category(t, owner, name) == first_matching_category(
                s1.push(c),
                owner,
                name,
            ));
            assert(first_matching_category(s, owner, name) == first_matching_category(
                s1,
                owner,
                name,
            ));
        }
    }
}

/// Resolving a category by name is idempotent in the name: after a posting
/// has resolved a name, that exact name finds a category of the owner, so a
/// later resolution reuses it and creates nothing.
pub proof fn lemma_category_resolution_idempotent(
    pre: Ledger,
    post: Ledger,
    owner: int,
    req: crate::models::CreateTransactionRequest,
)
    requires
        req.category_id is None,
        req.category_name is Some,
        category_ref_effect(pre, post, owner, req),
    ensures
        first_matching_category(post.categories@, owner, req.category_name.unwrap()@) is Some,
{
    reveal(category_ref_effect);
    let nm = req.category_name.unwrap();
    match first_matching_category(pre.categories@, owner, nm@) {
        Some(_) => {
        },
        Option::<Category>::None => {
            assert(post.categories@ =~= pre.categories@.push(post.categories@.last()));
            lemma_first_matching_push(pre.categories@, post.categories@.last(), owner, nm@);
        },
    }
}

/// With no matching posting, the spent figure is zero.
proof fn lemma_spent_sum_absent(
    ts: Seq<Transaction>,
    owner: int,
    category_id: Option<i32>,
    monthly: bool,
    anchor: Date,
    today: Date,
)
    requires
        forall|i: int|
            0 <= i < ts.len() ==> !expense_matches(
                #[trigger] ts[i],
                owner,
                category_id,
                monthly,
                anchor,
                today,
            ),
    ensures
        crate::budgets::spent_sum(ts, owner, category_id, monthly, anchor, today) == 0,
    decreases ts.len(),
{
    if ts.len() > 0 {
        lemma_spent_sum_absent(ts.drop_last(), owner, category_id, monthly, anchor, today);
    }
}

/// A budget that no posting matches evaluates to zero spent, the whole
/// target remaining, and not over budget.
pub proof fn lemma_budget_without_matches(l: Ledger, b: Budget, today: Date)
    requires
        l.wf(),
        b.amount.wf(),
        b.amount.v() > 0,
        forall|i: int|
            0 <= i < l.transactions@.len() ==> !expense_matches(
                #[trigger] l.transactions@[i],
                b.user_id as int,
                b.category_id,
                budget_monthly(b.period),
                b.start_date,
                today,
            ),
    ensures
        spec_eval(l, b, today).spent.v() == 0,
        spec_eval(l, b, today).remaining.v() == b.amount.v(),
        !spec_eval(l, b, today).is_over_budget,
{
    lemma_spent_sum_absent(
        l.transactions@,
        b.user_id as int,
        b.category_id,
        budget_monthly(b.period),
        b.start_date,
        today,
    );
    Money::lemma_spec_new(0);
    Money::lemma_spec_new(b.amount.v());
}

/// Two postings against one account move its sum by their combined amount,
/// in whichever order they land: with each write applied atomically, no
/// update is lost between concurrent postings.
pub proof fn lemma_two_postings_commute(
    ts: Seq<Transaction>,
    t1: Transaction,
    t2: Transaction,
    id: int,
)
    ensures
        txn_sum(ts.push(t1).push(t2), id) == txn_sum(ts.push(t2).push(t1), id),
        txn_sum(ts.push(t1).push(t2), id) == txn_sum(ts, id) + (if t1.account_id == id {
            t1.amount.v()
        } else {
            0
        }) + (if t2.account_id == id {
            t2.amount.v()
        } else {
            0
        }),
{
    crate::ledger::lemma_txn_sum_push(ts, t1, id);
    crate::ledger::lemma_txn_sum_push(ts.push(t1), t2, id);
    crate::ledger::lemma_txn_sum_push(ts, t2, id);
    crate::ledger::lemma_txn_sum_push(ts.push(t2), t1, id);
}

} // verus!
