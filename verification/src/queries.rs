//! Reading the ledger: the filtered transaction listing, newest first.

use crate::dates::Date;
use crate::errors::LedgerError;
use crate::ledger::Ledger;
use crate::models::{GetTransactionsQuery, Transaction, TransactionResponse};
use vstd::prelude::*;

verus! {

broadcast use vstd::seq_lib::group_to_multiset_ensures;

/// Whether a posting passes the listing filters; omitted filters pass
/// everything, given ones combine conjunctively.
pub open spec fn listing_matches(
    t: Transaction,
    owner: int,
    account_id: Option<i32>,
    start: Option<Date>,
    end: Option<Date>,
) -> bool {
    &&& t.user_id == owner
    &&& match account_id {
        Some(a) => t.account_id == a,
        Option::<i32>::None => true,
    }
    &&& match start {
        Some(s) => s.key() <= t.date.key(),
        Option::<Date>::None => true,
    }
    &&& match end {
        Some(e) => t.date.key() <= e.key(),
        Option::<Date>::None => true,
    }
}

/// The postings that pass the filters, in storage order.
pub open spec fn listing_filtered(
    s: Seq<Transaction>,
    owner: int,
    account_id: Option<i32>,
    start: Option<Date>,
    end: Option<Date>,
) -> Seq<Transaction>
    decreases s.len(),
{
    if s.len() == 0 {
        Seq::<Transaction>::empty()
    } else {
        listing_filtered(s.drop_last(), owner, account_id, start, end) + if listing_matches(
            s.last(),
            owner,
            account_id,
            start,
            end,
        ) {
            seq![s.last()]
        } else {
            Seq::<Transaction>::empty()
        }
    }
}

/// `a` may stand before `b` in the listing: a newer date first, and on one
/// date the newer creation first.
pub open spec fn listing_ordered(a: Transaction, b: Transaction) -> bool {
    a.date.key() > b.date.key() || (a.date.key() == b.date.key() && a.id >= b.id)
}

/// The account bears the identifier, whoever owns it.
pub open spec fn account_bears(a: crate::models::Account, id: int) -> bool {
    a.id == id
}

pub open spec fn has_account_with_id(l: Ledger, id: int) -> bool {
    exists|i: int| 0 <= i < l.accounts@.len() && #[trigger] account_bears(l.accounts@[i], id)
}

/// The index of the account bearing the identifier.
pub open spec fn account_with_id_index(l: Ledger, id: int) -> int {
    choose|i: int| 0 <= i < l.accounts@.len() && #[trigger] account_bears(l.accounts@[i], id)
}

/// Inserting somewhere in a sequence adds exactly one occurrence.
proof fn lemma_seq_insert_to_multiset(s: Seq<Transaction>, k: int, t: Transaction)
    requires
        0 <= k <= s.len(),
    ensures
        s.insert(k, t).to_multiset() == s.to_multiset().insert(t),
    decreases s.len() - k,
{
    if k == s.len() {
        assert(s.insert(k, t) =~= s.push(t));
    } else {
        let s2 = s.insert(k, t);
        assert(s2.remove(k) =~= s);
        assert(s2[k] == t);
        assert(s2.remove(k).to_multiset() =~= s2.to_multiset().remove(t));
        assert(s2.to_multiset().count(t) >= 1) by {
            assert(s2.contains(t));
        }
        assert(s2.to_multiset() =~= s2.to_multiset().remove(t).insert(t));
    }
}

/// The least identifier bound above everything the scan has consumed.
pub open spec fn listing_id_bound(s: Seq<Transaction>, i: int) -> int {
    if i <= 0 {
        0
    } else {
        s[i - 1].id as int + 1
    }
}

/// Whether the listed posting must stand after the incoming one: its date is
/// older, or the dates are one and it was created earlier.
fn stands_after(e: &Transaction, t: &Transaction) -> (r: bool)
    requires
        e.date.wf(),
        t.date.wf(),
    ensures
        r == (e.date.key() < t.date.key() || (e.date.key() == t.date.key() && e.id < t.id)),
{
    e.date.lt(&t.date) || (e.date.year == t.date.year && e.date.month == t.date.month
        && e.date.day == t.date.day && e.id < t.id)
}

impl Ledger {
    /// The caller's postings under the given filters, ordered newest date
    /// first with ties broken by newest creation first: exactly the matching
    /// postings, each exactly once.
    #[verifier::spinoff_prover]
    #[verifier::rlimit(30)]
    pub fn list_transactions(
        &self,
        owner: i32,
        account_id: Option<i32>,
        start: Option<Date>,
        end: Option<Date>,
    ) -> (r: Vec<Transaction>)
        requires
            self.wf(),
            start matches Some(s) ==> s.wf(),
            end matches Some(e) ==> e.wf(),
        ensures
            r@.to_multiset() == listing_filtered(
                self.transactions@,
                owner as int,
                account_id,
                start,
                end,
            ).to_multiset(),
            forall|i: int, j: int|
                0 <= i < j < r@.len() ==> listing_ordered(#[trigger] r@[i], #[trigger] r@[j]),
    {
        let ghost full = self.transactions@;
        let n = self.transactions.len();
        let mut out: Vec<Transaction> = Vec::new();
        let mut i: usize = 0;
        proof {
            assert(full.subrange(0, 0) =~= Seq::<Transaction>::empty());
        }
        while i < n
            invariant
                0 <= i <= n,
                n == full.len(),
                self.wf(),
                full == self.transactions@,
                start matches Some(s) ==> s.wf(),
                end matches Some(e) ==> e.wf(),
                out@.to_multiset() == listing_filtered(
                    full.subrange(0, i as int),
                    owner as int,
                    account_id,
                    start,
                    end,
                ).to_multiset(),
                forall|x: int, y: int|
                    0 <= x < y < out@.len() ==> listing_ordered(
                        #[trigger] out@[x],
                        #[trigger] out@[y],
                    ),
                forall|x: int|
                    0 <= x < out@.len() ==> (#[trigger] out@[x]).date.wf(),
                forall|x: int|
                    0 <= x < out@.len() ==> ((#[trigger] out@[x]).id as int) < listing_id_bound(
                        full,
                        i as int,
                    ),
            decreases n - i,
        {
            let t = &self.transactions[i];
            let ghost prefix = full.subrange(0, i as int);
            let ghost prefix1 = full.subrange(0, i + 1);
            proof {
                assert(prefix1.drop_last() =~= prefix);
                assert(prefix1.last() == full[i as int]);
                if i > 0 {
                    assert(crate::ledger::transaction_ids(full)[i as int - 1]
                        < crate::ledger::transaction_ids(full)[i as int]);
                }
                assert(listing_id_bound(full, i as int) <= full[i as int].id as int);
            }
            let owner_ok = t.user_id == owner;
            let account_ok = match account_id {
                Some(a) => t.account_id == a,
                None => true,
            };
            let start_ok = match &start {
                Some(s) => s.le(&t.date),
                None => true,
            };
            let end_ok = match &end {
                Some(e) => t.date.le(e),
                None => true,
            };
            if owner_ok && account_ok && start_ok && end_ok {
                let stored = Transaction {
                    id: t.id,
                    user_id: t.user_id,
                    account_id: t.account_id,
                    category_id: t.category_id,
                    amount: t.amount,
                    kind: t.kind,
                    date: t.date,
                    description: match &t.description {
                        Some(d) => Some(d.clone()),
                        None => None,
                    },
                };
                proof {
                    assert(stored == full[i as int]);
                }
                // everything already listed was created earlier; walk past
                // the entries that may stand before the incoming posting
                let mut k: usize = 0;
                while k < out.len() && !stands_after(&out[k], &stored)
                    invariant
                        0 <= k <= out@.len(),
                        stored == full[i as int],
                        stored.date.wf(),
                        forall|x: int|
                            0 <= x < out@.len() ==> (#[trigger] out@[x]).date.wf(),
                        forall|x: int|
                            0 <= x < k ==> listing_ordered(#[trigger] out@[x], stored),
                    decreases out@.len() - k,
                {
                    proof {
                        let e = out@[k as int];
                        assert(listing_ordered(e, stored));
                    }
                    k = k + 1;
                }
                proof {
                    let bound = listing_id_bound(full, i as int);
                    assert forall|x: int|
                        k <= x < out@.len() implies listing_ordered(
                        stored,
                        #[trigger] out@[x],
                    ) by {
                        assert((out@[x].id as int) < bound);
                        assert((out@[x].id as int) < stored.id as int);
                        let ek = out@[k as int];
                        assert(ek.date.key() < stored.date.key() || (ek.date.key()
                            == stored.date.key() && ek.id < stored.id));
                        if x > k as int {
                            assert(listing_ordered(ek, out@[x]));
                        }
                        assert(out@[x].date.key() <= stored.date.key());
                    }
                    lemma_seq_insert_to_multiset(out@, k as int, stored);
                }
                let ghost out_before = out@;
                out.insert(k, stored);
                proof {
                    assert forall|x: int, y: int|
                        0 <= x < y < out@.len() implies listing_ordered(
                        #[trigger] out@[x],
                        #[trigger] out@[y],
                    ) by {
                        let px: int = if x < k as int {
                            x
                        } else {
                            x - 1
                        };
                        let py: int = if y < k as int {
                            y
                        } else {
                            y - 1
                        };
                        if x == k as int {
                            assert(out@[y] == out_before[py]);
                        } else if y == k as int {
                            assert(out@[x] == out_before[px]);
                        } else {
                            assert(out@[x] == out_before[px]);
                            assert(out@[y] == out_before[py]);
                        }
                    }
                    assert(listing_filtered(
                        prefix1,
                        owner as int,
                        account_id,
                        start,
                        end,
                    ) =~= listing_filtered(prefix, owner as int, account_id, start, end).push(
                        full[i as int],
                    ));
                    assert(out@.to_multiset() =~= listing_filtered(
                        prefix1,
                        owner as int,
                        account_id,
                        start,
                        end,
                    ).to_multiset());
                }
            } else {
                proof {
                    assert(listing_filtered(prefix1, owner as int, account_id, start, end)
                        =~= listing_filtered(prefix, owner as int, account_id, start, end));
                }
            }
            i = i + 1;
        }
        proof {
            assert(full.subrange(0, n as int) =~= full);
        }
        out
    }

    /// Answers a listing request: parses the optional date bounds and lists
    /// the matching postings, newest first.
    pub fn get_transactions(&self, owner: i32, query: &GetTransactionsQuery) -> (r: Result<
        Vec<Transaction>,
        LedgerError,
    >)
        requires
            self.wf(),
        ensures
            (match query.start_date {
                Some(s) => !crate::dates::valid_date_text(s@),
                Option::<String>::None => false,
            }) ==> r == Err::<Vec<Transaction>, LedgerError>(LedgerError::BadStartDate),
            (match query.start_date {
                Some(s) => crate::dates::valid_date_text(s@),
                Option::<String>::None => true,
            }) && (match query.end_date {
                Some(e) => !crate::dates::valid_date_text(e@),
                Option::<String>::None => false,
            }) ==> r == Err::<Vec<Transaction>, LedgerError>(LedgerError::BadEndDate),
            (match query.start_date {
                Some(s) => crate::dates::valid_date_text(s@),
                Option::<String>::None => true,
            }) && (match query.end_date {
                Some(e) => crate::dates::valid_date_text(e@),
                Option::<String>::None => true,
            }) ==> (r matches Ok(list) && list@.to_multiset() == listing_filtered(
                self.transactions@,
                owner as int,
                query.account_id,
                match query.start_date {
                    Some(s) => Some(crate::dates::date_of_text(s@)),
                    Option::<String>::None => Option::<Date>::None,
                },
                match query.end_date {
                    Some(e) => Some(crate::dates::date_of_text(e@)),
                    Option::<String>::None => Option::<Date>::None,
                },
            ).to_multiset() && (forall|i: int, j: int|
                0 <= i < j < list@.len() ==> listing_ordered(
                    #[trigger] list@[i],
                    #[trigger] list@[j],
                ))),
    {
        let start = match &query.start_date {
            Some(ds) => match crate::dates::parse_date(ds.as_str()) {
                Some(d) => Some(d),
                None => {
                    return Err(LedgerError::BadStartDate);
                },
            },
            None => None,
        };
        let end = match &query.end_date {
            Some(ds) => match crate::dates::parse_date(ds.as_str()) {
                Some(d) => Some(d),
                None => {
                    return Err(LedgerError::BadEndDate);
                },
            },
            None => None,
        };
        Ok(self.list_transactions(owner, query.account_id, start, end))
    }

    /// Looks for any account bearing this identifier, to join its name.
    fn find_account_by_id(&self, id: i32) -> (r: Option<usize>)
        requires
            self.wf(),
        ensures
            match r {
                Some(i) => has_account_with_id(*self, id as int) && i < self.accounts@.len()
                    && i as int == account_with_id_index(*self, id as int),
                None => !has_account_with_id(*self, id as int),
            },
    {
        let n = self.accounts.len();
        let mut i: usize = 0;
        while i < n
            invariant
                0 <= i <= n,
                n == self.accounts@.len(),
                self.wf(),
                forall|j: int|
                    0 <= j < i ==> !(#[trigger] account_bears(self.accounts@[j], id as int)),
            decreases n - i,
        {
            if self.accounts[i].id == id {
                proof {
                    assert(account_bears(self.accounts@[i as int], id as int));
                    let w = account_with_id_index(*self, id as int);
                    if w != i {
                        assert(crate::ledger::account_ids(self.accounts@)[w] == id as int);
                        assert(crate::ledger::account_ids(self.accounts@)[i as int] == id as int);
                        assert(false);
                    }
                }
                return Some(i);
            }
            i = i + 1;
        }
        None
    }

    /// Joins one posting with the display names its account and category
    /// carry, as the interface answers after a write: the referenced
    /// account's and category's names where they exist, an empty name or
    /// nothing where they do not.
    pub fn transaction_response(&self, t: &Transaction) -> (r: TransactionResponse)
        requires
            self.wf(),
        ensures
            r.id == t.id,
            r.account_id == t.account_id,
            r.category_id == t.category_id,
            r.amount == t.amount,
            r.kind == t.kind,
            r.date == t.date,
            r.description == t.description,
            has_account_with_id(*self, t.account_id as int) ==> r.account_name
                == self.accounts@[account_with_id_index(*self, t.account_id as int)].name,
            !has_account_with_id(*self, t.account_id as int) ==> r.account_name@ == Seq::<
                char,
            >::empty(),
            match t.category_id {
                Some(c) => if crate::budgets::has_category_with_id(*self, c as int) {
                    r.category_name == Some(
                        self.categories@[crate::budgets::watched_category_index(
                            *self,
                            c as int,
                        )].name,
                    )
                } else {
                    r.category_name is None
                },
                Option::<i32>::None => r.category_name is None,
            },
    {
        let account_name = match self.find_account_by_id(t.account_id) {
            Some(i) => self.accounts[i].name.clone(),
            None => String::new(),
        };
        let category_name = match t.category_id {
            Some(c) => match self.find_category_by_id(c) {
                Some(j) => Some(self.categories[j].name.clone()),
                None => None,
            },
            None => None,
        };
        TransactionResponse {
            id: t.id,
            account_id: t.account_id,
            account_name,
            category_id: t.category_id,
            category_name,
            amount: t.amount,
            kind: t.kind,
            date: t.date,
            description: match &t.description {
                Some(d) => Some(d.clone()),
                None => None,
            },
        }
    }
}


} // verus!
