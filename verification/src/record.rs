//! The stored record and its owner identity, with their mathematical views.

use vstd::prelude::*;

verus! {

/// An opaque identity token for the caller who owns a set of credential
/// records. Tokens are issued by the calling environment; this library never
/// creates or inspects one, it only compares them by equality.
pub struct OwnerId {
    pub bytes: Vec<u8>,
}

impl View for OwnerId {
    type V = Seq<u8>;

    open spec fn view(&self) -> Seq<u8> {
        self.bytes@
    }
}

impl OwnerId {
    /// Builds an identity token from its raw bytes.
    pub fn new(bytes: Vec<u8>) -> (r: Self)
        ensures
            r@ == bytes@,
    {
        OwnerId { bytes }
    }
}

impl Clone for OwnerId {
    fn clone(&self) -> (r: Self)
        ensures
            r@ == self@,
    {
        OwnerId { bytes: clone_bytes(&self.bytes) }
    }
}

/// Equality of two identity tokens, byte for byte.
pub fn owner_eq(a: &OwnerId, b: &OwnerId) -> (r: bool)
    ensures
        r == (a@ == b@),
{
    bytes_eq(&a.bytes, &b.bytes)
}

fn clone_bytes(v: &Vec<u8>) -> (r: Vec<u8>)
    ensures
        r@ == v@,
{
    let mut out: Vec<u8> = Vec::new();
    let mut i: usize = 0;
    while i < v.len()
        invariant
            i <= v.len(),
            out@ == v@.subrange(0, i as int),
        decreases v.len() - i,
    {
        out.push(v[i]);
        proof {
            assert(out@ =~= v@.subrange(0, i as int + 1));
        }
        i += 1;
    }
    proof {
        assert(out@ =~= v@);
    }
    out
}

fn bytes_eq(a: &Vec<u8>, b: &Vec<u8>) -> (r: bool)
    ensures
        r == (a@ == b@),
{
    if a.len() != b.len() {
        return false;
    }
    let mut i: usize = 0;
    while i < a.len()
        invariant
            i <= a.len(),
            a@.len() == b@.len(),
            forall|j: int| 0 <= j < i ==> a@[j] == b@[j],
        decreases a.len() - i,
    {
        if a[i] != b[i] {
            return false;
        }
        i += 1;
    }
    proof {
        assert(a@ =~= b@);
    }
    true
}

/// The mathematical model of one stored record: each text field as a
/// sequence of characters, the owner as its token bytes.
#[verifier::ext_equal]
pub struct Record {
    pub owner: Seq<u8>,
    pub site: Seq<char>,
    pub username: Seq<char>,
    pub password: Seq<char>,
    pub encrypted: bool,
}

/// One stored credential: a `(site, username, password)` tuple, the identity
/// that owns it, and an inert `encrypted` marker. The marker is kept for
/// interface compatibility: nothing ever sets it or consults it, and the
/// password is held verbatim.
pub struct Credential {
    pub site: String,
    pub username: String,
    pub password: String,
    pub encrypted: bool,
    pub owner: OwnerId,
}

impl View for Credential {
    type V = Record;

    open spec fn view(&self) -> Record {
        Record {
            owner: self.owner@,
            site: self.site@,
            username: self.username@,
            password: self.password@,
            encrypted: self.encrypted,
        }
    }
}

impl Clone for Credential {
    fn clone(&self) -> (r: Self)
        ensures
            r@ == self@,
    {
        Credential {
            site: self.site.clone(),
            username: self.username.clone(),
            password: self.password.clone(),
            encrypted: self.encrypted,
            owner: self.owner.clone(),
        }
    }
}

} // verus!
