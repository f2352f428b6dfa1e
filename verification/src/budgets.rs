//! Budget consumption: the spent figure is recomputed from the transaction
//! set on every read, so it can never drift from the ledger.

use crate::dates::Date;
use crate::errors::{EntityKind, LedgerError, RefAction};
use crate::ledger::{abs_of, budget_ids, txn_abs_sum, Ledger};
use crate::models::{Budget, BudgetResponse, Category, CreateBudgetRequest, Transaction,
    UpdateBudgetRequest};
use crate::money::Money;
use vstd::prelude::*;
use vstd::string::StringExecFns;

verus! {

/// A budget with no period, or the `"monthly"` period, rolls with the
/// current calendar month; any other period accumulates from its start date.
pub open spec fn budget_monthly(period: Option<String>) -> bool {
    match period {
        Some(p) => p@ == "monthly"@,
        Option::<String>::None => true,
    }
}

/// The category bears the identifier, whoever owns it.
pub open spec fn category_has_id(c: Category, id: int) -> bool {
    c.id == id
}

/// The posting counts against the budget window: the owner's expense, in
/// the watched category if one is watched, dated inside the window.
pub open spec fn expense_matches(
    t: Transaction,
    owner: int,
    category_id: Option<i32>,
    monthly: bool,
    anchor: Date,
    today: Date,
) -> bool {
    &&& t.user_id == owner
    &&& t.kind is Expense
    &&& match category_id {
        Some(c) => t.category_id == Some(c),
        Option::<i32>::None => true,
    }
    &&& if monthly {
        t.date.same_month(today)
    } else {
        anchor.key() <= t.date.key()
    }
}

/// The sum of the magnitudes of the matching expenses: the spent figure.
pub open spec fn spent_sum(
    ts: Seq<Transaction>,
    owner: int,
    category_id: Option<i32>,
    monthly: bool,
    anchor: Date,
    today: Date,
) -> int
    decreases ts.len(),
{
    if ts.len() == 0 {
        0
    } else {
        spent_sum(ts.drop_last(), owner, category_id, monthly, anchor, today) + if expense_matches(
            ts.last(),
            owner,
            category_id,
            monthly,
            anchor,
            today,
        ) {
            abs_of(ts.last().amount.v())
        } else {
            0
        }
    }
}

/// Spending never counts below zero and never above the total magnitude.
pub proof fn lemma_spent_sum_bounds(
    ts: Seq<Transaction>,
    owner: int,
    category_id: Option<i32>,
    monthly: bool,
    anchor: Date,
    today: Date,
)
    ensures
        0 <= spent_sum(ts, owner, category_id, monthly, anchor, today) <= txn_abs_sum(ts),
    decreases ts.len(),
{
    if ts.len() > 0 {
        lemma_spent_sum_bounds(ts.drop_last(), owner, category_id, monthly, anchor, today);
    }
}

/// A prefix never carries more magnitude than the whole.
pub proof fn lemma_txn_abs_sum_prefix(ts: Seq<Transaction>, i: int)
    requires
        0 <= i <= ts.len(),
    ensures
        txn_abs_sum(ts.subrange(0, i)) <= txn_abs_sum(ts),
    decreases ts.len(),
{
    if i == ts.len() {
        assert(ts.subrange(0, i) =~= ts);
    } else {
        let shorter = ts.drop_last();
        assert(shorter.subrange(0, i) =~= ts.subrange(0, i));
        lemma_txn_abs_sum_prefix(shorter, i);
    }
}

/// Whether the budget watches a category that still exists.
pub open spec fn watched_category_index(l: Ledger, id: int) -> int {
    choose|i: int|
        0 <= i < l.categories@.len() && #[trigger] category_has_id(l.categories@[i], id)
}

pub open spec fn has_category_with_id(l: Ledger, id: int) -> bool {
    exists|i: int|
        0 <= i < l.categories@.len() && #[trigger] category_has_id(l.categories@[i], id)
}

/// The budget joined with the figures the ledger implies at read time.
pub open spec fn spec_eval(l: Ledger, b: Budget, today: Date) -> BudgetResponse {
    let spent = spent_sum(
        l.transactions@,
        b.user_id as int,
        b.category_id,
        budget_monthly(b.period),
        b.start_date,
        today,
    );
    BudgetResponse {
        id: b.id,
        category_id: b.category_id,
        category_name: match b.category_id {
            Some(c) => if has_category_with_id(l, c as int) {
                Some(l.categories@[watched_category_index(l, c as int)].name)
            } else {
                Option::<String>::None
            },
            Option::<i32>::None => Option::<String>::None,
        },
        amount: b.amount,
        period: b.period,
        start_date: b.start_date,
        spent: Money::spec_new(spent),
        remaining: Money::spec_new(b.amount.v() - spent),
        is_over_budget: spent > b.amount.v(),
    }
}

/// The first failure a budget request meets, in the order the checks run.
#[verifier::opaque]
pub open spec fn create_budget_error(l: Ledger, owner: int, req: CreateBudgetRequest) -> Option<
    LedgerError,
> {
    match crate::money::money_of_text(crate::text::trimmed(req.amount@)) {
        Option::<int>::None => Some(LedgerError::BadAmount),
        Some(x) => if x <= 0 {
            Some(LedgerError::NonPositiveBudgetAmount)
        } else if match req.category_id {
            Some(c) => !l.owned_category(owner, c as int),
            Option::<i32>::None => false,
        } {
            Some(LedgerError::NotFound(EntityKind::Category, RefAction::Use))
        } else if match req.start_date {
            Some(d) => !crate::dates::valid_date_text(d@),
            Option::<String>::None => false,
        } {
            Some(LedgerError::BadStartDate)
        } else if l.next_budget_id == i32::MAX {
            Some(LedgerError::OutOfRange)
        } else {
            None
        },
    }
}

/// The start date a budget request carries: the given one, or today.
pub open spec fn budget_start_date(req_date: Option<String>, today: Date) -> Date {
    match req_date {
        Some(d) => crate::dates::date_of_text(d@),
        Option::<String>::None => today,
    }
}

/// A fresh budget with a positive target keeps the store well formed.
proof fn lemma_push_budget_wf(pre: Ledger, post: Ledger, b: Budget)
    requires
        pre.wf(),
        b.id == pre.next_budget_id,
        pre.next_budget_id < i32::MAX,
        b.amount.wf(),
        b.amount.v() > 0,
        b.start_date.wf(),
        post.budgets@ == pre.budgets@.push(b),
        post.next_budget_id == pre.next_budget_id + 1,
        post.accounts@ == pre.accounts@,
        post.categories@ == pre.categories@,
        post.transactions@ == pre.transactions@,
        post.next_account_id == pre.next_account_id,
        post.next_category_id == pre.next_category_id,
        post.next_transaction_id == pre.next_transaction_id,
        post.total_magnitude == pre.total_magnitude,
    ensures
        post.wf(),
{
    let bid = budget_ids(post.budgets@);
    let n = pre.budgets@.len() as int;
    assert(bid =~= budget_ids(pre.budgets@).push(b.id as int));
    assert forall|x: int, y: int| 0 <= x < y < bid.len() implies bid[x] < bid[y] by {
        if y < n {
            assert(budget_ids(pre.budgets@)[x] < budget_ids(pre.budgets@)[y]);
        } else {
            assert(bid[x] == pre.budgets@[x].id as int);
            assert(pre.budgets@[x].id < pre.next_budget_id);
        }
    }
    assert forall|i: int|
        0 <= i < post.budgets@.len() implies {
        let x = #[trigger] post.budgets@[i];
        1 <= x.id < post.next_budget_id && x.amount.wf() && x.amount.v() > 0 && x.start_date.wf()
    } by {
        if i < n {
            assert(post.budgets@[i] == pre.budgets@[i]);
        } else {
            assert(post.budgets@[i] == b);
        }
    }
}

/// The owner's budgets, newest first, as the listing returns them.
pub open spec fn owned_budgets_rev(s: Seq<Budget>, owner: int) -> Seq<Budget>
    decreases s.len(),
{
    if s.len() == 0 {
        Seq::<Budget>::empty()
    } else {
        owned_budgets_rev(s.subrange(1, s.len() as int), owner) + if s[0].user_id == owner {
            seq![s[0]]
        } else {
            Seq::<Budget>::empty()
        }
    }
}

impl Ledger {
    /// The spent figure: the magnitudes of the owner's expenses summed over
    /// the window, restricted to the watched category when one is given.
    /// Zero matching postings give zero; it is never an error.
    pub fn spent_for(
        &self,
        owner: i32,
        category_id: Option<i32>,
        period: &Option<String>,
        anchor: Date,
        today: Date,
    ) -> (r: Money)
        requires
            self.wf(),
            anchor.wf(),
            today.wf(),
        ensures
            r == Money::spec_new(
                spent_sum(
                    self.transactions@,
                    owner as int,
                    category_id,
                    budget_monthly(*period),
                    anchor,
                    today,
                ),
            ),
            r.v() == spent_sum(
                self.transactions@,
                owner as int,
                category_id,
                budget_monthly(*period),
                anchor,
                today,
            ),
            r.v() >= 0,
            r.wf(),
    {
        let monthly_word = String::from_str("monthly");
        let monthly = match period {
            Some(p) => p.eq(&monthly_word),
            None => true,
        };
        let ghost full = self.transactions@;
        let n = self.transactions.len();
        let mut acc = Money::zero();
        let mut i: usize = 0;
        proof {
            assert(full.subrange(0, 0) =~= Seq::<Transaction>::empty());
        }
        while i < n
            invariant
                0 <= i <= n,
                n == full.len(),
                self.wf(),
                full == self.transactions@,
                acc == Money::spec_new(
                    spent_sum(
                        full.subrange(0, i as int),
                        owner as int,
                        category_id,
                        monthly,
                        anchor,
                        today,
                    ),
                ),
                acc.v() == spent_sum(
                    full.subrange(0, i as int),
                    owner as int,
                    category_id,
                    monthly,
                    anchor,
                    today,
                ),
                0 <= acc.v() <= txn_abs_sum(full.subrange(0, i as int)),
                anchor.wf(),
                today.wf(),
            decreases n - i,
        {
            let t = &self.transactions[i];
            let ghost prefix = full.subrange(0, i as int);
            let ghost prefix1 = full.subrange(0, i + 1);
            proof {
                assert(prefix1 =~= prefix.push(full[i as int]));
                assert(prefix1.drop_last() =~= prefix);
                lemma_txn_abs_sum_prefix(full, i + 1);
            }
            let cat_ok = match (category_id, t.category_id) {
                (Some(c), Some(tc)) => c == tc,
                (Some(_), None) => false,
                (None, _) => true,
            };
            let window_ok = if monthly {
                t.date.in_same_month(&today)
            } else {
                anchor.le(&t.date)
            };
            let kind_ok = match t.kind {
                crate::models::TransactionKind::Expense => true,
                _ => false,
            };
            if t.user_id == owner && kind_ok && cat_ok && window_ok {
                let mag = t.amount.magnitude();
                acc = match acc.checked_add(&mag) {
                    Some(a) => a,
                    None => {
                        proof {
                            assert(false);
                        }
                        acc
                    },
                };
            }
            i = i + 1;
        }
        proof {
            assert(full.subrange(0, n as int) =~= full);
        }
        acc
    }

    /// Looks for any category bearing this identifier, to join its name.
    pub(crate) fn find_category_by_id(&self, id: i32) -> (r: Option<usize>)
        requires
            self.wf(),
        ensures
            match r {
                Some(i) => has_category_with_id(*self, id as int) && i < self.categories@.len()
                    && i as int == watched_category_index(*self, id as int),
                None => !has_category_with_id(*self, id as int),
            },
    {
        let n = self.categories.len();
        let mut i: usize = 0;
        while i < n
            invariant
                0 <= i <= n,
                n == self.categories@.len(),
                self.wf(),
                forall|j: int|
                    0 <= j < i ==> !(#[trigger] category_has_id(self.categories@[j], id as int)),
            decreases n - i,
        {
            if self.categories[i].id == id {
                proof {
                    assert(category_has_id(self.categories@[i as int], id as int));
                    let w = watched_category_index(*self, id as int);
                    if w != i {
                        assert(crate::ledger::category_ids(self.categories@)[w] == id as int);
                        assert(crate::ledger::category_ids(self.categories@)[i as int]
                            == id as int);
                        assert(false);
                    }
                }
                return Some(i);
            }
            i = i + 1;
        }
        None
    }

    /// The budget joined with its live figures: spent, remaining and the
    /// over-budget flag, all recomputed from the postings.
    pub fn evaluate_budget(&self, b: &Budget, today: Date) -> (r: BudgetResponse)
        requires
            self.wf(),
            b.amount.wf(),
            b.amount.v() > 0,
            b.start_date.wf(),
            today.wf(),
        ensures
            r == spec_eval(*self, *b, today),
    {
        let spent = self.spent_for(b.user_id, b.category_id, &b.period, b.start_date, today);
        proof {
            lemma_spent_sum_bounds(
                self.transactions@,
                b.user_id as int,
                b.category_id,
                budget_monthly(b.period),
                b.start_date,
                today,
            );
        }
        let remaining = match b.amount.checked_sub(&spent) {
            Some(m) => m,
            None => {
                proof {
                    assert(false);
                }
                spent
            },
        };
        let is_over_budget = b.amount.less_than(&spent);
        let category_name = match b.category_id {
            Some(c) => match self.find_category_by_id(c) {
                Some(i) => Some(self.categories[i].name.clone()),
                None => None,
            },
            None => None,
        };
        BudgetResponse {
            id: b.id,
            category_id: b.category_id,
            category_name,
            amount: b.amount,
            period: b.period.clone(),
            start_date: b.start_date,
            spent,
            remaining,
            is_over_budget,
        }
    }

    /// Creates a budget: a positive target for a watched category or for all
    /// spending, anchored at the given date or today, defaulting to the
    /// monthly period; answers with its live figures.
    pub fn create_budget(&mut self, owner: i32, req: &CreateBudgetRequest, today: Date) -> (r:
        Result<BudgetResponse, LedgerError>)
        requires
            old(self).wf(),
            today.wf(),
        ensures
            final(self).wf(),
            match create_budget_error(*old(self), owner as int, *req) {
                Some(e) => r == Err::<BudgetResponse, LedgerError>(e) && final(self).unchanged(
                    *old(self),
                ),
                None => {
                    let b = final(self).budgets@.last();
                    &&& final(self).budgets@ == old(self).budgets@.push(b)
                    &&& final(self).next_budget_id == old(self).next_budget_id + 1
                    &&& final(self).accounts@ == old(self).accounts@
                    &&& final(self).categories@ == old(self).categories@
                    &&& final(self).transactions@ == old(self).transactions@
                    &&& b.id == old(self).next_budget_id
                    &&& b.user_id == owner
                    &&& b.category_id == req.category_id
                    &&& b.amount.v() == crate::money::money_of_text(
                        crate::text::trimmed(req.amount@),
                    ).unwrap()
                    &&& (b.period matches Some(p) && p@ == (match req.period {
                        Some(g) => g@,
                        Option::<String>::None => "monthly"@,
                    }))
                    &&& b.start_date == budget_start_date(req.start_date, today)
                    &&& r == Ok::<BudgetResponse, LedgerError>(spec_eval(*final(self), b, today))
                },
            },
    {
        let ghost pre = *old(self);
        let amount = match Money::parse_trimmed(req.amount.as_str()) {
            Some(m) => m,
            None => {
                proof {
                    reveal(create_budget_error);
                }
                return Err(LedgerError::BadAmount);
            },
        };
        if !amount.is_positive() {
            proof {
                reveal(create_budget_error);
            }
            return Err(LedgerError::NonPositiveBudgetAmount);
        }
        if let Some(c) = req.category_id {
            if self.find_category(owner, c).is_none() {
                proof {
                    reveal(create_budget_error);
                }
                return Err(LedgerError::NotFound(EntityKind::Category, RefAction::Use));
            }
        }
        let start_date = match &req.start_date {
            Some(ds) => match crate::dates::parse_date(ds.as_str()) {
                Some(d) => d,
                None => {
                    proof {
                        reveal(create_budget_error);
                    }
                    return Err(LedgerError::BadStartDate);
                },
            },
            None => today,
        };
        if self.next_budget_id == i32::MAX {
            proof {
                reveal(create_budget_error);
            }
            return Err(LedgerError::OutOfRange);
        }
        proof {
            reveal(create_budget_error);
        }
        let period = match &req.period {
            Some(p) => p.clone(),
            None => String::from_str("monthly"),
        };
        let id = self.next_budget_id;
        let stored = Budget {
            id,
            user_id: owner,
            category_id: req.category_id,
            amount,
            period: Some(period),
            start_date,
        };
        let ghost gb = stored;
        self.budgets.push(stored);
        self.next_budget_id = id + 1;
        proof {
            lemma_push_budget_wf(pre, *self, gb);
            assert(self.budgets@.last() == gb);
        }
        let evaluated = {
            let b_ref = &self.budgets[self.budgets.len() - 1];
            self.evaluate_budget(b_ref, today)
        };
        Ok(evaluated)
    }

    /// Deletes the caller's budget.
    pub fn delete_budget(&mut self, owner: i32, budget_id: i32) -> (r: Result<(), LedgerError>)
        requires
            old(self).wf(),
        ensures
            final(self).wf(),
            !old(self).owned_budget(owner as int, budget_id as int) ==> r == Err::<(), LedgerError>(
                LedgerError::NotFound(EntityKind::Budget, RefAction::Delete),
            ) && final(self).unchanged(*old(self)),
            old(self).owned_budget(owner as int, budget_id as int) ==> {
                &&& r is Ok
                &&& final(self).budgets@ == old(self).budgets@.remove(
                    old(self).budget_index(owner as int, budget_id as int),
                )
                &&& final(self).accounts@ == old(self).accounts@
                &&& final(self).categories@ == old(self).categories@
                &&& final(self).transactions@ == old(self).transactions@
                &&& final(self).next_budget_id == old(self).next_budget_id
            },
    {
        let found = self.find_budget(owner, budget_id);
        match found {
            None => Err(LedgerError::NotFound(EntityKind::Budget, RefAction::Delete)),
            Some(i) => {
                self.budgets.remove(i);
                proof {
                    let pre = *old(self);
                    let post = *self;
                    assert(post.budgets@ =~= pre.budgets@.remove(i as int));
                    assert forall|x: int, y: int|
                        0 <= x < y < post.budgets@.len() implies budget_ids(post.budgets@)[x]
                        < budget_ids(post.budgets@)[y] by {
                        let px: int = if x < i as int {
                            x
                        } else {
                            x + 1
                        };
                        let py: int = if y < i as int {
                            y
                        } else {
                            y + 1
                        };
                        assert(post.budgets@[x] == pre.budgets@[px]);
                        assert(post.budgets@[y] == pre.budgets@[py]);
                        assert(budget_ids(pre.budgets@)[px] < budget_ids(pre.budgets@)[py]);
                    }
                    assert(post.wf());
                }
                Ok(())
            },
        }
    }

    /// The caller's budgets, newest first, each joined with its live figures.
    pub fn get_budgets(&self, owner: i32, today: Date) -> (r: Vec<BudgetResponse>)
        requires
            self.wf(),
            today.wf(),
        ensures
            r@ == owned_budgets_rev(self.budgets@, owner as int).map_values(
                |b: Budget| spec_eval(*self, b, today),
            ),
    {
        let n = self.budgets.len();
        let mut out: Vec<BudgetResponse> = Vec::new();
        let mut k: usize = n;
        proof {
            assert(self.budgets@.subrange(n as int, n as int) =~= Seq::<Budget>::empty());
            assert(out@ =~= owned_budgets_rev(
                self.budgets@.subrange(n as int, n as int),
                owner as int,
            ).map_values(|b: Budget| spec_eval(*self, b, today)));
        }
        while k > 0
            invariant
                0 <= k <= n,
                n == self.budgets@.len(),
                self.wf(),
                today.wf(),
                out@ == owned_budgets_rev(
                    self.budgets@.subrange(k as int, n as int),
                    owner as int,
                ).map_values(|b: Budget| spec_eval(*self, b, today)),
            decreases k,
        {
            k = k - 1;
            let ghost seg = self.budgets@.subrange(k as int, n as int);
            proof {
                assert(seg.subrange(1, seg.len() as int) =~= self.budgets@.subrange(
                    k + 1,
                    n as int,
                ));
                assert(seg[0] == self.budgets@[k as int]);
            }
            let owned = self.budgets[k].user_id == owner;
            if owned {
                let evaluated = {
                    let b_ref = &self.budgets[k];
                    self.evaluate_budget(b_ref, today)
                };
                out.push(evaluated);
                proof {
                    assert(out@ =~= owned_budgets_rev(seg, owner as int).map_values(
                        |b: Budget| spec_eval(*self, b, today),
                    ));
                }
            } else {
                proof {
                    assert(out@ =~= owned_budgets_rev(seg, owner as int).map_values(
                        |b: Budget| spec_eval(*self, b, today),
                    ));
                }
            }
        }
        proof {
            assert(self.budgets@.subrange(0, n as int) =~= self.budgets@);
        }
        out
    }
}


/// The first failure a budget update meets, in the order the checks run.
#[verifier::opaque]
pub open spec fn update_budget_error(
    l: Ledger,
    owner: int,
    budget_id: int,
    req: UpdateBudgetRequest,
) -> Option<LedgerError> {
    match crate::money::money_of_text(crate::text::trimmed(req.amount@)) {
        Option::<int>::None => Some(LedgerError::BadAmount),
        Some(x) => if x <= 0 {
            Some(LedgerError::NonPositiveBudgetAmount)
        } else if match req.start_date {
            Some(d) => !crate::dates::valid_date_text(d@),
            Option::<String>::None => false,
        } {
            Some(LedgerError::BadStartDate)
        } else if !l.owned_budget(owner, budget_id) {
            Some(LedgerError::NotFound(EntityKind::Budget, RefAction::Update))
        } else {
            None
        },
    }
}

impl Ledger {
    /// Replaces the caller's budget's target, period and start date; the
    /// watched category is kept, and the answer carries the live figures.
    pub fn update_budget(
        &mut self,
        owner: i32,
        budget_id: i32,
        req: &UpdateBudgetRequest,
        today: Date,
    ) -> (r: Result<BudgetResponse, LedgerError>)
        requires
            old(self).wf(),
            today.wf(),
        ensures
            final(self).wf(),
            match update_budget_error(*old(self), owner as int, budget_id as int, *req) {
                Some(e) => r == Err::<BudgetResponse, LedgerError>(e) && final(self).unchanged(
                    *old(self),
                ),
                None => {
                    let i = old(self).budget_index(owner as int, budget_id as int);
                    let b = final(self).budgets@[i];
                    &&& final(self).budgets@.len() == old(self).budgets@.len()
                    &&& forall|j: int|
                        0 <= j < old(self).budgets@.len() && j != i ==> final(self).budgets@[j]
                            == old(self).budgets@[j]
                    &&& b.id == budget_id
                    &&& b.user_id == owner
                    &&& b.category_id == old(self).budgets@[i].category_id
                    &&& b.amount.v() == crate::money::money_of_text(
                        crate::text::trimmed(req.amount@),
                    ).unwrap()
                    &&& (b.period matches Some(p) && p@ == (match req.period {
                        Some(g) => g@,
                        Option::<String>::None => "monthly"@,
                    }))
                    &&& b.start_date == budget_start_date(req.start_date, today)
                    &&& final(self).accounts@ == old(self).accounts@
                    &&& final(self).categories@ == old(self).categories@
                    &&& final(self).transactions@ == old(self).transactions@
                    &&& final(self).next_budget_id == old(self).next_budget_id
                    &&& r == Ok::<BudgetResponse, LedgerError>(spec_eval(*final(self), b, today))
                },
            },
    {
        let ghost pre = *old(self);
        let amount = match Money::parse_trimmed(req.amount.as_str()) {
            Some(m) => m,
            None => {
                proof {
                    reveal(update_budget_error);
                }
                return Err(LedgerError::BadAmount);
            },
        };
        if !amount.is_positive() {
            proof {
                reveal(update_budget_error);
            }
            return Err(LedgerError::NonPositiveBudgetAmount);
        }
        let start_date = match &req.start_date {
            Some(ds) => match crate::dates::parse_date(ds.as_str()) {
                Some(d) => d,
                None => {
                    proof {
                        reveal(update_budget_error);
                    }
                    return Err(LedgerError::BadStartDate);
                },
            },
            None => today,
        };
        let period = match &req.period {
            Some(p) => p.clone(),
            None => String::from_str("monthly"),
        };
        let found = self.find_budget(owner, budget_id);
        let i = match found {
            None => {
                proof {
                    reveal(update_budget_error);
                }
                return Err(LedgerError::NotFound(EntityKind::Budget, RefAction::Update));
            },
            Some(i) => i,
        };
        proof {
            reveal(update_budget_error);
        }
        let prev = &self.budgets[i];
        let updated = Budget {
            id: prev.id,
            user_id: prev.user_id,
            category_id: prev.category_id,
            amount,
            period: Some(period),
            start_date,
        };
        self.budgets.set(i, updated);
        proof {
            let post = *self;
            assert(budget_ids(post.budgets@) =~= budget_ids(pre.budgets@));
            assert forall|j: int|
                0 <= j < post.budgets@.len() implies {
                let x = #[trigger] post.budgets@[j];
                1 <= x.id < post.next_budget_id && x.amount.wf() && x.amount.v() > 0
                    && x.start_date.wf()
            } by {
                if j != i as int {
                    assert(post.budgets@[j] == pre.budgets@[j]);
                }
            }
            assert(post.wf());
        }
        let evaluated = {
            let b_ref = &self.budgets[i];
            self.evaluate_budget(b_ref, today)
        };
        Ok(evaluated)
    }
}

} // verus!
