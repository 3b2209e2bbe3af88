//! What the secrets store decides: which rows a listing returns and when a delete succeeded.
use vstd::prelude::*;

use crate::text::chars_of;

pub mod model;

use model::Secret;

verus! {

/// `needle` occurs in `hay` as a contiguous run; the empty string occurs everywhere.
pub open spec fn contains(hay: Seq<char>, needle: Seq<char>) -> bool {
    exists|i: int|
        0 <= i && i + needle.len() <= hay.len() && #[trigger] hay.subrange(i, i + needle.len())
            == needle
}

/// A secret is listed when its service contains `service` and its account contains `account`.
pub open spec fn secret_matches(s: Secret, service: Seq<char>, account: Seq<char>) -> bool {
    contains(s.service@, service) && contains(s.account@, account)
}

fn matches_at(h: &Vec<char>, n: &Vec<char>, i: usize) -> (r: bool)
    requires
        i + n@.len() <= h@.len(),
    ensures
        r == (h@.subrange(i as int, i + n@.len()) == n@),
{
    let hl = h.len();
    let mut j: usize = 0;
    while j < n.len()
        invariant
            hl == h@.len(),
            i + n@.len() <= h@.len(),
            j <= n@.len(),
            h@.subrange(i as int, i + j) == n@.take(j as int),
        decreases n@.len() - j,
    {
        if h[i + j] != n[j] {
            proof {
                assert(h@.subrange(i as int, i + n@.len())[j as int] != n@[j as int]);
            }
            return false;
        }
        proof {
            assert(h@.subrange(i as int, i + j + 1) =~= h@.subrange(i as int, i + j).push(
                h@[i + j],
            ));
            assert(n@.take(j + 1) =~= n@.take(j as int).push(n@[j as int]));
        }
        j = j + 1;
    }
    proof {
        assert(n@.take(n@.len() as int) =~= n@);
    }
    true
}

/// Case-sensitive substring test.
pub fn str_contains(hay: &str, needle: &str) -> (r: bool)
    ensures
        r == contains(hay@, needle@),
{
    let h = chars_of(hay);
    let n = chars_of(needle);
    if n.len() > h.len() {
        return false;
    }
    let last = h.len() - n.len();
    let mut i: usize = 0;
    loop
        invariant
            n@.len() <= h@.len(),
            last == h@.len() - n@.len(),
            h@ == hay@,
            n@ == needle@,
            i <= last,
            forall|k: int| 0 <= k < i ==> #[trigger] h@.subrange(k, k + n@.len()) != n@,
        decreases last - i,
    {
        if matches_at(&h, &n, i) {
            return true;
        }
        if i == last {
            return false;
        }
        i = i + 1;
    }
}

/// The secrets, in their order, whose service and account contain the given texts.
pub fn filter_secrets(secrets: Vec<Secret>, service: &str, account: &str) -> (r: Vec<Secret>)
    ensures
        r@ == secrets@.filter(|s: Secret| secret_matches(s, service@, account@)),
{
    let ghost pred = |s: Secret| secret_matches(s, service@, account@);
    let ghost all = secrets@;
    let mut rest = secrets;
    let mut r: Vec<Secret> = Vec::new();
    while rest.len() > 0
        invariant
            pred == (|s: Secret| secret_matches(s, service@, account@)),
            rest@.len() <= all.len(),
            rest@ == all.skip(all.len() - rest@.len()),
            r@ == all.take(all.len() - rest@.len()).filter(pred),
        decreases rest@.len(),
    {
        let ghost k = all.len() - rest@.len();
        let s = rest.remove(0);
        proof {
            assert(s == all[k]);
            assert(rest@ =~= all.skip(k + 1));
            reveal(Seq::filter);
            assert(all.take(k + 1).drop_last() =~= all.take(k));
            assert(all.take(k + 1).last() == s);
        }
        let keep = str_contains(s.service.as_str(), service) && str_contains(
            s.account.as_str(),
            account,
        );
        if keep {
            r.push(s);
        }
    }
    proof {
        assert(all.take(all.len() as int) =~= all);
    }
    r
}

/// Filtering with empty texts keeps every secret.
pub proof fn lemma_empty_filter_keeps_all(secrets: Seq<Secret>)
    ensures
        secrets.filter(|s: Secret| secret_matches(s, Seq::empty(), Seq::empty())) == secrets,
    decreases secrets.len(),
{
    reveal(Seq::filter);
    if secrets.len() > 0 {
        lemma_empty_filter_keeps_all(secrets.drop_last());
        let s = secrets.last();
        let e = Seq::<char>::empty();
        assert(s.service@.subrange(0int, 0int + e.len()) =~= e);
        assert(s.account@.subrange(0int, 0int + e.len()) =~= e);
        assert(secret_matches(s, e, e));
        assert(secrets.drop_last().push(s) =~= secrets);
    }
}

/// A delete succeeded exactly when it removed one row.
pub fn deleted_one(affected_rows: usize) -> (r: bool)
    ensures
        r == (affected_rows == 1),
{
    affected_rows == 1
}

/// Listing by service and by account are independent filters combined by AND: filtering by
/// both at once equals filtering by the service and then by the account.
pub proof fn lemma_filters_combine(secrets: Seq<Secret>, service: Seq<char>, account: Seq<char>)
    ensures
        secrets.filter(|s: Secret| secret_matches(s, service, account)) == secrets.filter(
            |s: Secret| secret_matches(s, service, Seq::empty()),
        ).filter(|s: Secret| secret_matches(s, Seq::empty(), account)),
    decreases secrets.len(),
{
    reveal(Seq::filter);
    let both = |s: Secret| secret_matches(s, service, account);
    let by_service = |s: Secret| secret_matches(s, service, Seq::empty());
    let by_account = |s: Secret| secret_matches(s, Seq::empty(), account);
    if secrets.len() > 0 {
        lemma_filters_combine(secrets.drop_last(), service, account);
        let s = secrets.last();
        let e = Seq::<char>::empty();
        assert(s.service@.subrange(0int, 0int + e.len()) =~= e);
        assert(s.account@.subrange(0int, 0int + e.len()) =~= e);
        assert(both(s) == (by_service(s) && by_account(s)));
        let f = secrets.drop_last().filter(by_service);
        if by_service(s) {
            assert(secrets.filter(by_service) == f.push(s));
            assert(f.push(s).drop_last() =~= f);
        }
    }
}

/// When no secret matches, the listing is empty.
pub proof fn lemma_no_match_lists_nothing(secrets: Seq<Secret>, service: Seq<char>, account: Seq<char>)
    requires
        forall|i: int| 0 <= i < secrets.len() ==> !secret_matches(#[trigger] secrets[i], service, account),
    ensures
        secrets.filter(|s: Secret| secret_matches(s, service, account)) == Seq::<Secret>::empty(),
    decreases secrets.len(),
{
    reveal(Seq::filter);
    if secrets.len() > 0 {
        let rest = secrets.drop_last();
        assert forall|i: int| 0 <= i < rest.len() implies !secret_matches(#[trigger] rest[i], service, account) by {
            assert(rest[i] == secrets[i]);
        }
        lemma_no_match_lists_nothing(rest, service, account);
        assert(!secret_matches(secrets[secrets.len() - 1], service, account));
    }
}

} // verus!
