//! Decisions of the terminal client: list navigation, resolving a typed
//! category reference, and the checks a form runs before it submits. The
//! drawing and the transport around them stay outside the library.

use crate::models::{AccountResponse, CategoryResponse};
use crate::text::{int_text_val, parse_i32, text_ci_equal, trim_spaces, trimmed, valid_int_text};
use vstd::prelude::*;

verus! {

/// The next selection below the current one, wrapping to the top.
pub fn next_index(curr: Option<usize>, len: usize) -> (r: usize)
    ensures
        len == 0 ==> r == 0,
        len > 0 ==> r == match curr {
            Some(i) => if i >= len - 1 {
                0usize
            } else {
                (i + 1) as usize
            },
            Option::<usize>::None => 0usize,
        },
{
    if len == 0 {
        return 0;
    }
    match curr {
        Some(i) => if i >= len - 1 {
            0
        } else {
            i + 1
        },
        None => 0,
    }
}

/// The next selection above the current one, wrapping to the bottom.
pub fn prev_index(curr: Option<usize>, len: usize) -> (r: usize)
    ensures
        len == 0 ==> r == 0,
        len > 0 ==> r == match curr {
            Some(i) => if i == 0 {
                (len - 1) as usize
            } else {
                (i - 1) as usize
            },
            Option::<usize>::None => 0usize,
        },
{
    if len == 0 {
        return 0;
    }
    match curr {
        Some(i) => if i == 0 {
            len - 1
        } else {
            i - 1
        },
        None => 0,
    }
}

/// The earliest-loaded category bearing the identifier.
pub open spec fn first_with_id(cats: Seq<CategoryResponse>, id: int) -> Option<CategoryResponse>
    decreases cats.len(),
{
    if cats.len() == 0 {
        Option::<CategoryResponse>::None
    } else if cats[0].id as int == id {
        Some(cats[0])
    } else {
        first_with_id(cats.subrange(1, cats.len() as int), id)
    }
}

/// The earliest-loaded category bearing the name, ignoring ASCII case.
pub open spec fn first_ci_named(cats: Seq<CategoryResponse>, name: Seq<char>) -> Option<
    CategoryResponse,
>
    decreases cats.len(),
{
    if cats.len() == 0 {
        Option::<CategoryResponse>::None
    } else if text_ci_equal(cats[0].name@, name) {
        Some(cats[0])
    } else {
        first_ci_named(cats.subrange(1, cats.len() as int), name)
    }
}

/// Resolves typed category input against the loaded list: empty input names
/// nothing; a number present as an identifier wins, taking the earliest
/// entry bearing it; anything else takes the earliest entry whose name
/// matches, ignoring ASCII case.
pub fn resolve_category(cats: &Vec<CategoryResponse>, input: &str) -> (r: Option<(i32, String)>)
    ensures
        trimmed(input@).len() == 0 ==> r is None,
        trimmed(input@).len() > 0 && valid_int_text(trimmed(input@)) && i32::MIN <= int_text_val(
            trimmed(input@),
        ) <= i32::MAX ==> (first_with_id(cats@, int_text_val(trimmed(input@))) matches Some(c)
            ==> r == Some((c.id, c.name))),
        trimmed(input@).len() > 0 && !(valid_int_text(trimmed(input@)) && i32::MIN <= int_text_val(
            trimmed(input@),
        ) <= i32::MAX && first_with_id(cats@, int_text_val(trimmed(input@))) is Some)
            ==> r == match first_ci_named(cats@, trimmed(input@)) {
            Some(c) => Some((c.id, c.name)),
            Option::<CategoryResponse>::None => Option::<(i32, String)>::None,
        },
{
    let cleaned = trim_spaces(input);
    if cleaned.unicode_len() == 0 {
        return None;
    }
    let n = cats.len();
    if let Some(id) = parse_i32(cleaned) {
        let mut i: usize = 0;
        proof {
            assert(cats@.subrange(0, n as int) =~= cats@);
        }
        while i < n
            invariant
                0 <= i <= n,
                n == cats@.len(),
                cleaned@ == trimmed(input@),
                cleaned@.len() > 0,
                valid_int_text(cleaned@),
                i32::MIN <= int_text_val(cleaned@) <= i32::MAX,
                id as int == int_text_val(cleaned@),
                first_with_id(cats@, id as int) == first_with_id(
                    cats@.subrange(i as int, n as int),
                    id as int,
                ),
            decreases n - i,
        {
            let ghost seg = cats@.subrange(i as int, n as int);
            proof {
                assert(seg[0] == cats@[i as int]);
                assert(seg.subrange(1, seg.len() as int) =~= cats@.subrange(i + 1, n as int));
            }
            if cats[i].id == id {
                proof {
                    assert(first_with_id(cats@, id as int) == Some(cats@[i as int]));
                }
                return Some((cats[i].id, cats[i].name.clone()));
            }
            i = i + 1;
        }
        proof {
            assert(cats@.subrange(n as int, n as int) =~= Seq::<CategoryResponse>::empty());
            assert(first_with_id(cats@, id as int) is None);
        }
    }
    let mut i: usize = 0;
    proof {
        assert(cats@.subrange(0, n as int) =~= cats@);
    }
    while i < n
        invariant
            0 <= i <= n,
            n == cats@.len(),
            cleaned@ == trimmed(input@),
            cleaned@.len() > 0,
            !(valid_int_text(cleaned@) && i32::MIN <= int_text_val(cleaned@) <= i32::MAX)
                || first_with_id(cats@, int_text_val(cleaned@)) is None,
            first_ci_named(cats@, cleaned@) == first_ci_named(
                cats@.subrange(i as int, n as int),
                cleaned@,
            ),
        decreases n - i,
    {
        let ghost seg = cats@.subrange(i as int, n as int);
        proof {
            assert(seg[0] == cats@[i as int]);
            assert(seg.subrange(1, seg.len() as int) =~= cats@.subrange(i + 1, n as int));
        }
        if crate::text::eq_ignore_ascii_case(cats[i].name.as_str(), cleaned) {
            proof {
                assert(first_ci_named(cats@, cleaned@) == Some(cats@[i as int]));
            }
            return Some((cats[i].id, cats[i].name.clone()));
        }
        i = i + 1;
    }
    proof {
        assert(cats@.subrange(n as int, n as int) =~= Seq::<CategoryResponse>::empty());
        assert(first_ci_named(cats@, cleaned@) is None);
    }
    None
}

/// What a name check can find wrong before a form submits.
#[derive(Clone, Copy, PartialEq, Eq, Structural, Debug)]
pub enum NameCheck {
    Accepted,
    Empty,
    TooLong,
    Duplicate,
}

/// Checks a typed name before creating an entity with it: trimmed, one to
/// fifty characters, and not already in the list, ignoring ASCII case.
pub fn check_new_name(name: &str, existing: &Vec<String>) -> (r: NameCheck)
    ensures
        trimmed(name@).len() == 0 ==> r is Empty,
        trimmed(name@).len() > 50 ==> r is TooLong,
        1 <= trimmed(name@).len() <= 50 ==> (r is Duplicate <==> exists|i: int|
            0 <= i < existing@.len() && text_ci_equal((#[trigger] existing@[i])@, trimmed(name@))),
        1 <= trimmed(name@).len() <= 50 && !(exists|i: int|
            0 <= i < existing@.len() && text_ci_equal((#[trigger] existing@[i])@, trimmed(name@)))
            ==> r is Accepted,
{
    let cleaned = trim_spaces(name);
    let len = cleaned.unicode_len();
    if len == 0 {
        return NameCheck::Empty;
    }
    if len > 50 {
        return NameCheck::TooLong;
    }
    let n = existing.len();
    let mut i: usize = 0;
    while i < n
        invariant
            0 <= i <= n,
            n == existing@.len(),
            cleaned@ == trimmed(name@),
            1 <= cleaned@.len() <= 50,
            forall|j: int| 0 <= j < i ==> !text_ci_equal((#[trigger] existing@[j])@, cleaned@),
        decreases n - i,
    {
        if crate::text::eq_ignore_ascii_case(existing[i].as_str(), cleaned) {
            return NameCheck::Duplicate;
        }
        i = i + 1;
    }
    NameCheck::Accepted
}

/// What a transfer form check can find wrong with its two endpoints.
#[derive(Clone, Copy, PartialEq, Eq, Structural, Debug)]
pub enum TransferIdCheck {
    Accepted,
    SameAccount,
    FromMissing,
    ToMissing,
}

/// An account in the list bears this identifier.
pub open spec fn has_account_id(accounts: Seq<AccountResponse>, id: int) -> bool {
    exists|i: int| 0 <= i < accounts.len() && (#[trigger] accounts[i].id) as int == id
}

/// Checks the two endpoints a transfer form names against the loaded
/// accounts: distinct, and both present.
pub fn check_transfer_ids(from: i32, to: i32, accounts: &Vec<AccountResponse>) -> (r:
    TransferIdCheck)
    ensures
        from == to ==> r is SameAccount,
        from != to && !has_account_id(accounts@, from as int) ==> r is FromMissing,
        from != to && has_account_id(accounts@, from as int) && !has_account_id(
            accounts@,
            to as int,
        ) ==> r is ToMissing,
        from != to && has_account_id(accounts@, from as int) && has_account_id(
            accounts@,
            to as int,
        ) ==> r is Accepted,
{
    if from == to {
        return TransferIdCheck::SameAccount;
    }
    let mut from_found = false;
    let mut to_found = false;
    let n = accounts.len();
    let mut i: usize = 0;
    while i < n
        invariant
            0 <= i <= n,
            n == accounts@.len(),
            from_found == exists|j: int|
                0 <= j < i && (#[trigger] accounts@[j].id) as int == from as int,
            to_found == exists|j: int|
                0 <= j < i && (#[trigger] accounts@[j].id) as int == to as int,
        decreases n - i,
    {
        if accounts[i].id == from {
            from_found = true;
        }
        if accounts[i].id == to {
            to_found = true;
        }
        i = i + 1;
    }
    if !from_found {
        TransferIdCheck::FromMissing
    } else if !to_found {
        TransferIdCheck::ToMissing
    } else {
        TransferIdCheck::Accepted
    }
}

} // verus!
