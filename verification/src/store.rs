//! The credential store and its five operations.

use vstd::prelude::*;
use crate::record::{Credential, OwnerId, Record, owner_eq};

verus! {

/// Whether record `r` belongs to `owner` and carries the site label `site`.
pub open spec fn is_match(r: Record, owner: Seq<u8>, site: Seq<char>) -> bool {
    r.owner == owner && r.site == site
}

/// Whether some record of `s` matches `(owner, site)`.
pub open spec fn has_match(s: Seq<Record>, owner: Seq<u8>, site: Seq<char>) -> bool {
    exists|i: int| 0 <= i < s.len() && is_match(s[i], owner, site)
}

/// The position of the first record of `s` that matches `(owner, site)`;
/// meaningful only when such a record exists.
pub open spec fn first_match(s: Seq<Record>, owner: Seq<u8>, site: Seq<char>) -> int
    decreases s.len(),
{
    if s.len() == 0 {
        0
    } else if is_match(s[0], owner, site) {
        0
    } else {
        1 + first_match(s.drop_first(), owner, site)
    }
}

/// The record that one `add` call with these arguments appends: the four
/// fields as given and the `encrypted` marker clear.
pub open spec fn added_record(
    owner: Seq<u8>,
    site: Seq<char>,
    username: Seq<char>,
    password: Seq<char>,
) -> Record {
    Record { owner, site, username, password, encrypted: false }
}

/// `r` with its login fields replaced and everything else kept.
pub open spec fn with_login(r: Record, username: Seq<char>, password: Seq<char>) -> Record {
    Record { owner: r.owner, site: r.site, username, password, encrypted: r.encrypted }
}

/// The records of `s` that belong to `owner`, in order.
pub open spec fn owned_by(s: Seq<Record>, owner: Seq<u8>) -> Seq<Record> {
    s.filter(|r: Record| r.owner == owner)
}

/// The records of `s` that do not match `(owner, site)`, in order.
pub open spec fn without_matches(s: Seq<Record>, owner: Seq<u8>, site: Seq<char>) -> Seq<Record> {
    s.filter(|r: Record| !is_match(r, owner, site))
}

/// The views of a sequence of stored credentials.
pub open spec fn views_of(s: Seq<Credential>) -> Seq<Record> {
    s.map_values(|c: Credential| c@)
}

/// Appending a record extends `owned_by` with that record exactly when the
/// record belongs to the owner.
pub proof fn lemma_owned_by_push(s: Seq<Record>, x: Record, owner: Seq<u8>)
    ensures
        owned_by(s.push(x), owner) == if x.owner == owner {
            owned_by(s, owner).push(x)
        } else {
            owned_by(s, owner)
        },
{
    reveal(Seq::filter);
    assert(s.push(x).drop_last() =~= s);
    assert(s.push(x).last() == x);
}

/// Appending a record extends `without_matches` with that record exactly
/// when the record does not match `(owner, site)`.
pub proof fn lemma_without_matches_push(s: Seq<Record>, x: Record, owner: Seq<u8>, site: Seq<char>)
    ensures
        without_matches(s.push(x), owner, site) == if is_match(x, owner, site) {
            without_matches(s, owner, site)
        } else {
            without_matches(s, owner, site).push(x)
        },
{
    reveal(Seq::filter);
    assert(s.push(x).drop_last() =~= s);
    assert(s.push(x).last() == x);
}

/// Keeping every record is the identity: filtering by a predicate that all
/// records satisfy returns the sequence unchanged.
pub proof fn lemma_filter_keeps_all(s: Seq<Record>, pred: spec_fn(Record) -> bool)
    requires
        forall|i: int| 0 <= i < s.len() ==> pred(s[i]),
    ensures
        s.filter(pred) == s,
    decreases s.len(),
{
    reveal(Seq::filter);
    if s.len() == 0 {
        assert(s.filter(pred) =~= s);
    } else {
        lemma_filter_keeps_all(s.drop_last(), pred);
        assert(s.drop_last().push(s.last()) =~= s);
    }
}

/// Appending a record leaves a match present exactly when one was already
/// present or the new record itself matches.
pub proof fn lemma_has_match_push(s: Seq<Record>, x: Record, owner: Seq<u8>, site: Seq<char>)
    ensures
        has_match(s.push(x), owner, site) <==> (has_match(s, owner, site) || is_match(
            x,
            owner,
            site,
        )),
{
    if has_match(s, owner, site) {
        let i = choose|i: int| 0 <= i < s.len() && is_match(s[i], owner, site);
        assert(s.push(x)[i] == s[i]);
        assert(has_match(s.push(x), owner, site));
    }
    if is_match(x, owner, site) {
        assert(s.push(x)[s.len() as int] == x);
        assert(has_match(s.push(x), owner, site));
    }
    if has_match(s.push(x), owner, site) && !is_match(x, owner, site) {
        let i = choose|i: int| 0 <= i < s.push(x).len() && is_match(s.push(x)[i], owner, site);
        assert(i < s.len());
        assert(s.push(x)[i] == s[i]);
        assert(has_match(s, owner, site));
    }
}

/// When a match exists, `first_match` points inside the sequence, at a
/// matching record, and no earlier record matches.
pub proof fn lemma_first_match(s: Seq<Record>, owner: Seq<u8>, site: Seq<char>)
    requires
        has_match(s, owner, site),
    ensures
        0 <= first_match(s, owner, site) < s.len(),
        is_match(s[first_match(s, owner, site)], owner, site),
        forall|j: int| 0 <= j < first_match(s, owner, site) ==> !is_match(s[j], owner, site),
    decreases s.len(),
{
    if !is_match(s[0], owner, site) {
        let t = s.drop_first();
        let i = choose|i: int| 0 <= i < s.len() && is_match(s[i], owner, site);
        assert(t[i - 1] == s[i]);
        assert(has_match(t, owner, site));
        lemma_first_match(t, owner, site);
        assert forall|j: int| 0 <= j < first_match(s, owner, site) implies !is_match(
            s[j],
            owner,
            site,
        ) by {
            if j > 0 {
                assert(s[j] == t[j - 1]);
            }
        }
    }
}

/// A position that matches, with no earlier match, is exactly where
/// `first_match` points.
pub proof fn lemma_first_match_at(s: Seq<Record>, owner: Seq<u8>, site: Seq<char>, i: int)
    requires
        0 <= i < s.len(),
        is_match(s[i], owner, site),
        forall|j: int| 0 <= j < i ==> !is_match(s[j], owner, site),
    ensures
        has_match(s, owner, site),
        first_match(s, owner, site) == i,
    decreases s.len(),
{
    if i > 0 {
        let t = s.drop_first();
        assert(t[i - 1] == s[i]);
        assert forall|j: int| 0 <= j < i - 1 implies !is_match(t[j], owner, site) by {
            assert(t[j] == s[j + 1]);
        }
        lemma_first_match_at(t, owner, site, i - 1);
    }
}

/// The credential store: one ordered collection of records, owned
/// exclusively by the store. Its view is the sequence of record models in
/// insertion order.
pub struct CredentialStore {
    entries: Vec<Credential>,
}

impl View for CredentialStore {
    type V = Seq<Record>;

    closed spec fn view(&self) -> Seq<Record> {
        views_of(self.entries@)
    }
}

impl Default for CredentialStore {
    fn default() -> (r: Self)
        ensures
            r@ == Seq::<Record>::empty(),
    {
        CredentialStore::new()
    }
}

impl CredentialStore {
    /// An empty store.
    pub fn new() -> (r: Self)
        ensures
            r@ == Seq::<Record>::empty(),
    {
        let r = CredentialStore { entries: Vec::new() };
        proof {
            assert(r@ =~= Seq::<Record>::empty());
        }
        r
    }

    /// Appends a new record for `(owner, site)` with the given login and the
    /// `encrypted` marker clear. Always succeeds: inputs are not validated
    /// and an existing record for the same `(owner, site)` is not an error,
    /// it simply leaves a duplicate behind the first one.
    pub fn add(&mut self, owner: OwnerId, site: String, username: String, password: String)
        ensures
            final(self)@ == old(self)@.push(added_record(owner@, site@, username@, password@)),
    {
        let ghost prev = self.entries@;
        let c = Credential { site, username, password, encrypted: false, owner };
        self.entries.push(c);
        proof {
            assert(views_of(prev.push(c)) =~= views_of(prev).push(c@));
        }
    }

    /// The position of the first record matching `(owner, site)`, or `None`
    /// when no record matches.
    fn find_index(&self, owner: &OwnerId, site: &String) -> (r: Option<usize>)
        ensures
            match r {
                Some(i) => has_match(self@, owner@, site@) && i == first_match(
                    self@,
                    owner@,
                    site@,
                ),
                None => !has_match(self@, owner@, site@),
            },
    {
        let n = self.entries.len();
        let mut i: usize = 0;
        while i < n
            invariant
                n == self.entries.len(),
                self@.len() == n,
                i <= n,
                forall|j: int| 0 <= j < i ==> !is_match(self@[j], owner@, site@),
            decreases n - i,
        {
            let e = &self.entries[i];
            if owner_eq(&e.owner, owner) && e.site == *site {
                proof {
                    assert(is_match(self@[i as int], owner@, site@));
                    lemma_first_match_at(self@, owner@, site@, i as int);
                }
                return Some(i);
            }
            i += 1;
        }
        None
    }

    /// Returns a copy of the first record, by insertion order, that matches
    /// `(owner, site)`, or `None` when no record matches. Absence is a
    /// normal outcome, not an error.
    pub fn get(&self, owner: &OwnerId, site: &String) -> (r: Option<Credential>)
        ensures
            match r {
                Some(c) => has_match(self@, owner@, site@) && c@ == self@[first_match(
                    self@,
                    owner@,
                    site@,
                )],
                None => !has_match(self@, owner@, site@),
            },
    {
        match self.find_index(owner, site) {
            Some(i) => {
                proof {
                    lemma_first_match(self@, owner@, site@);
                }
                Some(self.entries[i].clone())
            },
            None => None,
        }
    }

    /// Returns copies of all records that belong to `owner`, in insertion
    /// order; the copies are independent of the store. An owner with no
    /// records gets an empty sequence.
    pub fn list(&self, owner: &OwnerId) -> (r: Vec<Credential>)
        ensures
            views_of(r@) == owned_by(self@, owner@),
    {
        let n = self.entries.len();
        let mut out: Vec<Credential> = Vec::new();
        let mut i: usize = 0;
        proof {
            assert(views_of(out@) =~= owned_by(self@.subrange(0, 0), owner@));
        }
        while i < n
            invariant
                n == self.entries.len(),
                self@.len() == n,
                i <= n,
                views_of(out@) == owned_by(self@.subrange(0, i as int), owner@),
            decreases n - i,
        {
            let ghost prefix = self@.subrange(0, i as int);
            let ghost x = self@[i as int];
            let e = &self.entries[i];
            if owner_eq(&e.owner, owner) {
                let ghost before = out@;
                out.push(e.clone());
                proof {
                    assert(views_of(out@) =~= views_of(before).push(x));
                }
            }
            proof {
                assert(self@.subrange(0, i as int + 1) =~= prefix.push(x));
                lemma_owned_by_push(prefix, x, owner@);
            }
            i += 1;
        }
        proof {
            assert(self@.subrange(0, n as int) =~= self@);
        }
        out
    }

    /// Overwrites the login fields of the first record, by insertion order,
    /// that matches `(owner, site)`, leaving its other fields untouched, and
    /// reports whether one was found. When no record matches, the store is
    /// unchanged: no record is created.
    pub fn edit(
        &mut self,
        owner: &OwnerId,
        site: &String,
        new_username: String,
        new_password: String,
    ) -> (r: bool)
        ensures
            r == has_match(old(self)@, owner@, site@),
            r ==> final(self)@ == old(self)@.update(
                first_match(old(self)@, owner@, site@),
                with_login(
                    old(self)@[first_match(old(self)@, owner@, site@)],
                    new_username@,
                    new_password@,
                ),
            ),
            !r ==> final(self)@ == old(self)@,
    {
        match self.find_index(owner, site) {
            Some(i) => {
                proof {
                    lemma_first_match(self@, owner@, site@);
                }
                let ghost prev = self.entries@;
                let e = &mut self.entries[i];
                e.username = new_username;
                e.password = new_password;
                proof {
                    assert(views_of(self.entries@) =~= views_of(prev).update(
                        i as int,
                        with_login(prev[i as int]@, new_username@, new_password@),
                    ));
                }
                true
            },
            None => false,
        }
    }

    /// Removes every record that matches `(owner, site)` — all duplicates,
    /// not only the first — and reports whether the store shrank, that is,
    /// whether at least one record was removed.
    pub fn delete(&mut self, owner: &OwnerId, site: &String) -> (r: bool)
        ensures
            final(self)@ == without_matches(old(self)@, owner@, site@),
            r == has_match(old(self)@, owner@, site@),
            !r ==> final(self)@ == old(self)@,
    {
        let n = self.entries.len();
        let mut kept: Vec<Credential> = Vec::new();
        let mut found = false;
        let mut i: usize = 0;
        proof {
            assert(views_of(kept@) =~= without_matches(self@.subrange(0, 0), owner@, site@));
        }
        while i < n
            invariant
                n == self.entries.len(),
                self@.len() == n,
                i <= n,
                views_of(kept@) == without_matches(self@.subrange(0, i as int), owner@, site@),
                found == has_match(self@.subrange(0, i as int), owner@, site@),
            decreases n - i,
        {
            let ghost prefix = self@.subrange(0, i as int);
            let ghost x = self@[i as int];
            let e = &self.entries[i];
            if owner_eq(&e.owner, owner) && e.site == *site {
                found = true;
            } else {
                let ghost before = kept@;
                kept.push(e.clone());
                proof {
                    assert(views_of(kept@) =~= views_of(before).push(x));
                }
            }
            proof {
                assert(self@.subrange(0, i as int + 1) =~= prefix.push(x));
                lemma_without_matches_push(prefix, x, owner@, site@);
                lemma_has_match_push(prefix, x, owner@, site@);
            }
            i += 1;
        }
        proof {
            assert(self@.subrange(0, n as int) =~= self@);
            if !found {
                assert forall|k: int| 0 <= k < self@.len() implies !is_match(
                    self@[k],
                    owner@,
                    site@,
                ) by {}
                lemma_filter_keeps_all(self@, |m: Record| !is_match(m, owner@, site@));
            }
        }
        self.entries = kept;
        found
    }
}

} // verus!
