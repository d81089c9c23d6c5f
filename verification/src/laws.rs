//! Laws that relate the store's operations to one another, stated over the
//! same mathematical model that the operations' contracts use.

use vstd::prelude::*;
use crate::record::Record;
use crate::store::{
    added_record, first_match, has_match, is_match, lemma_filter_keeps_all, lemma_first_match,
    lemma_first_match_at, lemma_has_match_push, lemma_owned_by_push, owned_by, with_login,
    without_matches,
};

verus! {

/// A record added for `(owner, site)` is what a following lookup for the
/// same pair returns, whenever the store held no record for that pair
/// before: the lookup sees the given login and a clear `encrypted` marker.
/// (With an earlier record for the pair present, the lookup would keep
/// returning that earlier record instead.)
pub proof fn lemma_add_then_get(
    s: Seq<Record>,
    owner: Seq<u8>,
    site: Seq<char>,
    username: Seq<char>,
    password: Seq<char>,
)
    requires
        !has_match(s, owner, site),
    ensures
        has_match(s.push(added_record(owner, site, username, password)), owner, site),
        s.push(added_record(owner, site, username, password))[first_match(
            s.push(added_record(owner, site, username, password)),
            owner,
            site,
        )] == added_record(owner, site, username, password),
{
    let x = added_record(owner, site, username, password);
    let t = s.push(x);
    assert(t[s.len() as int] == x);
    assert(is_match(x, owner, site));
    assert forall|j: int| 0 <= j < s.len() implies !is_match(t[j], owner, site) by {
        assert(t[j] == s[j]);
    }
    lemma_first_match_at(t, owner, site, s.len() as int);
}

/// An owner who owns every record of the store gets all of them from a
/// listing, in insertion order: so after `n` additions for one owner into
/// an otherwise untouched empty store, the listing holds exactly those `n`
/// records, in the order they were added.
pub proof fn lemma_list_all_owned(s: Seq<Record>, owner: Seq<u8>)
    requires
        forall|i: int| 0 <= i < s.len() ==> s[i].owner == owner,
    ensures
        owned_by(s, owner) == s,
{
    lemma_filter_keeps_all(s, |r: Record| r.owner == owner);
}

/// A successful edit for `(owner, site)` is visible to a following lookup
/// for the same pair: the lookup still finds a record at the same position,
/// and that record carries the new login while its owner, site and
/// `encrypted` marker are those it held before.
pub proof fn lemma_edit_then_get(
    s: Seq<Record>,
    owner: Seq<u8>,
    site: Seq<char>,
    username: Seq<char>,
    password: Seq<char>,
)
    requires
        has_match(s, owner, site),
    ensures
        has_match(
            s.update(
                first_match(s, owner, site),
                with_login(s[first_match(s, owner, site)], username, password),
            ),
            owner,
            site,
        ),
        first_match(
            s.update(
                first_match(s, owner, site),
                with_login(s[first_match(s, owner, site)], username, password),
            ),
            owner,
            site,
        ) == first_match(s, owner, site),
        s.update(
            first_match(s, owner, site),
            with_login(s[first_match(s, owner, site)], username, password),
        )[first_match(s, owner, site)] == with_login(
            s[first_match(s, owner, site)],
            username,
            password,
        ),
{
    lemma_first_match(s, owner, site);
    let i = first_match(s, owner, site);
    let x = with_login(s[i], username, password);
    let t = s.update(i, x);
    assert(t[i] == x);
    assert(is_match(x, owner, site));
    assert forall|j: int| 0 <= j < i implies !is_match(t[j], owner, site) by {
        assert(t[j] == s[j]);
    }
    lemma_first_match_at(t, owner, site, i);
}

/// A deletion that matches nothing removes nothing: the contents stay as
/// they were, record for record, and the store's size is unchanged.
pub proof fn lemma_delete_no_match(s: Seq<Record>, owner: Seq<u8>, site: Seq<char>)
    requires
        !has_match(s, owner, site),
    ensures
        without_matches(s, owner, site) == s,
{
    assert forall|i: int| 0 <= i < s.len() implies !is_match(s[i], owner, site) by {}
    lemma_filter_keeps_all(s, |r: Record| !is_match(r, owner, site));
}

/// A deletion for `(owner, site)` leaves no record for that pair behind,
/// however many matched: a following lookup for the pair finds nothing, and
/// a listing for the owner holds no record with that site any more.
pub proof fn lemma_delete_removes_all(s: Seq<Record>, owner: Seq<u8>, site: Seq<char>)
    ensures
        !has_match(without_matches(s, owner, site), owner, site),
        forall|j: int|
            0 <= j < owned_by(without_matches(s, owner, site), owner).len()
                ==> #[trigger] owned_by(without_matches(s, owner, site), owner)[j].site != site,
{
    broadcast use Seq::lemma_filter_pred;
    broadcast use Seq::lemma_filter_contains_rev;

    let t = without_matches(s, owner, site);
    if has_match(t, owner, site) {
        let i = choose|i: int| 0 <= i < t.len() && is_match(t[i], owner, site);
        assert(!is_match(t[i], owner, site));
    }
    let l = owned_by(t, owner);
    assert forall|j: int| 0 <= j < l.len() implies #[trigger] l[j].site != site by {
        assert(l[j].owner == owner);
        assert(l.contains(l[j]));
        assert(t.contains(l[j]));
        let k = choose|k: int| 0 <= k < t.len() && t[k] == l[j];
        assert(!is_match(t[k], owner, site));
    }
}

/// Records added for one owner are invisible to every other owner: the
/// other owner's listing is unchanged by the addition, and a lookup under
/// the other owner finds a match afterwards only where it already found one
/// before.
pub proof fn lemma_cross_owner_isolation(s: Seq<Record>, x: Record, other: Seq<u8>, site: Seq<char>)
    requires
        x.owner != other,
    ensures
        owned_by(s.push(x), other) == owned_by(s, other),
        has_match(s.push(x), other, site) == has_match(s, other, site),
{
    lemma_owned_by_push(s, x, other);
    lemma_has_match_push(s, x, other, site);
}

} // verus!
