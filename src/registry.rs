//! The registry the scheme is used through: an admin, a set of issuers, a
//! default ring, one ring per attribute, and a login counter that counts
//! successful verifications.
//!
//! Who may call what (the admin registers issuers, an issuer publishes rings)
//! is checked by the caller before these operations are reached.
use crate::group::{bytes_eq, G1Point};
use crate::ring::{points_view, scalars_view, verifies, RingSignature};
use soroban_sdk::{Address, Env};
use vstd::prelude::*;

verus! {

/// An account of the host, carried through as it is.
#[verifier::external_type_specification]
#[verifier::external_body]
pub struct ExAddress(Address);

/// Why a registry operation was refused.
#[derive(Debug, Clone, Copy, PartialEq, Eq)]
pub enum RegistryError {
    /// The admin has already been set.
    AlreadyInitialized,
    /// No admin has been set yet.
    NotInitialized,
}

/// The registry's state. Key derivation, signing and ring verification need
/// none of it and are associated functions of this type.
pub struct RingSigContract {
    /// The admin, set once.
    pub admin: Option<Address>,
    /// The registered issuers' public keys, without repeats.
    pub issuers: Vec<[u8; 96]>,
    /// The default ring.
    pub ring: Option<Vec<G1Point>>,
    /// The ring of each attribute, one entry per attribute.
    pub attribute_rings: Vec<(Vec<u8>, Vec<G1Point>)>,
    /// The number of successful verifications, saturating.
    pub login_count: u64,
}

/// The ring published for `attribute` in `entries`, if any.
pub open spec fn ring_for(entries: Seq<(Vec<u8>, Vec<G1Point>)>, attribute: Seq<u8>) -> Option<Seq<G1Point>> {
    if exists|i: int| 0 <= i < entries.len() && #[trigger] entries[i].0@ == attribute {
        let i = choose|i: int| 0 <= i < entries.len() && #[trigger] entries[i].0@ == attribute;
        Some(entries[i].1@)
    } else {
        None
    }
}

/// No attribute appears twice in `entries`.
pub open spec fn attributes_unique(entries: Seq<(Vec<u8>, Vec<G1Point>)>) -> bool {
    forall|i: int, j: int|
        0 <= i < j < entries.len() ==> #[trigger] entries[i].0@ != #[trigger] entries[j].0@
}

/// Where `entries` has no repeated attribute, the ring at an index holding
/// `attribute` is the ring published for it.
pub proof fn lemma_ring_for_at(entries: Seq<(Vec<u8>, Vec<G1Point>)>, attribute: Seq<u8>, i: int)
    requires
        attributes_unique(entries),
        0 <= i < entries.len(),
        entries[i].0@ == attribute,
    ensures
        ring_for(entries, attribute) == Some(entries[i].1@),
{
    let c = choose|c: int| 0 <= c < entries.len() && #[trigger] entries[c].0@ == attribute;
    assert(entries[i].0@ == attribute);
    if c < i {
        assert(entries[c].0@ != entries[i].0@);
    } else if c > i {
        assert(entries[i].0@ != entries[c].0@);
    }
}

/// The counter after one more successful verification.
pub open spec fn bumped(count: u64) -> u64 {
    if count < u64::MAX {
        (count + 1) as u64
    } else {
        count
    }
}

impl RingSigContract {
    /// The registry's invariant: no issuer is registered twice, and no
    /// attribute has two rings.
    pub open spec fn wf(&self) -> bool {
        &&& forall|i: int, j: int|
            0 <= i < j < self.issuers@.len() ==> #[trigger] self.issuers@[i] != #[trigger] self.issuers@[j]
        &&& attributes_unique(self.attribute_rings@)
    }

    /// An empty registry: no admin, no issuers, no rings, a counter at 0.
    pub fn new() -> (r: RingSigContract)
        ensures
            r.wf(),
            r.admin.is_none(),
            r.issuers@.len() == 0,
            r.ring.is_none(),
            r.attribute_rings@.len() == 0,
            r.login_count == 0,
    {
        RingSigContract {
            admin: None,
            issuers: Vec::new(),
            ring: None,
            attribute_rings: Vec::new(),
            login_count: 0,
        }
    }

    /// Sets the admin and starts an empty issuer set; refused when an admin is
    /// already set, which then stays.
    pub fn initialize(&mut self, admin: Address) -> (r: Result<(), RegistryError>)
        requires
            old(self).wf(),
        ensures
            final(self).wf(),
            old(self).admin.is_some() ==> r == Err::<(), RegistryError>(RegistryError::AlreadyInitialized)
                && *final(self) == *old(self),
            old(self).admin.is_none() ==> r == Ok::<(), RegistryError>(()) && final(self).admin == Some(admin)
                && final(self).issuers@.len() == 0 && final(self).ring == old(self).ring
                && final(self).attribute_rings == old(self).attribute_rings
                && final(self).login_count == old(self).login_count,
    {
        if self.admin.is_some() {
            return Err(RegistryError::AlreadyInitialized);
        }
        self.admin = Some(admin);
        self.issuers = Vec::new();
        Ok(())
    }

    /// The admin, if one is set.
    pub fn get_admin(&self) -> (r: Option<&Address>)
        ensures
            r.is_some() == self.admin.is_some(),
            r.is_some() ==> *r.unwrap() == self.admin.unwrap(),
    {
        match &self.admin {
            Some(a) => Some(a),
            None => None,
        }
    }

    /// Adds an issuer to the set; a key already there leaves the set as it
    /// is. Refused, with nothing changed, before an admin is set.
    pub fn register_issuer(&mut self, issuer_pub: [u8; 96]) -> (r: Result<(), RegistryError>)
        requires
            old(self).wf(),
        ensures
            final(self).wf(),
            final(self).admin == old(self).admin,
            final(self).ring == old(self).ring,
            final(self).attribute_rings == old(self).attribute_rings,
            final(self).login_count == old(self).login_count,
            old(self).admin.is_none() ==> r == Err::<(), RegistryError>(RegistryError::NotInitialized)
                && final(self).issuers@ == old(self).issuers@,
            old(self).admin.is_some() ==> r == Ok::<(), RegistryError>(()) && final(self).issuers@ == if old(
                self,
            ).issuers@.contains(issuer_pub) {
                old(self).issuers@
            } else {
                old(self).issuers@.push(issuer_pub)
            },
    {
        if self.admin.is_none() {
            return Err(RegistryError::NotInitialized);
        }
        let mut i: usize = 0;
        while i < self.issuers.len()
            invariant
                i <= self.issuers@.len(),
                *self == *old(self),
                self.wf(),
                self.admin.is_some(),
                forall|j: int| 0 <= j < i ==> self.issuers@[j] != issuer_pub,
            decreases self.issuers@.len() - i,
        {
            if bytes_eq(&self.issuers[i], &issuer_pub) {
                proof {
                    assert(self.issuers@[i as int] == issuer_pub);
                }
                return Ok(());
            }
            i += 1;
        }
        assert(!self.issuers@.contains(issuer_pub));
        self.issuers.push(issuer_pub);
        Ok(())
    }

    /// The registered issuers, in order of registration.
    pub fn get_issuers(&self) -> (r: &Vec<[u8; 96]>)
        ensures
            r@ == self.issuers@,
    {
        &self.issuers
    }

    /// Publishes `users` as the ring of `attribute`, in place of any earlier
    /// one.
    pub fn create_ring_for_attribute(&mut self, attribute: Vec<u8>, users: Vec<G1Point>)
        requires
            old(self).wf(),
        ensures
            final(self).wf(),
            final(self).admin == old(self).admin,
            final(self).issuers == old(self).issuers,
            final(self).ring == old(self).ring,
            final(self).login_count == old(self).login_count,
            forall|a: Seq<u8>|
                #[trigger] ring_for(final(self).attribute_rings@, a) == if a == attribute@ {
                    Some(users@)
                } else {
                    ring_for(old(self).attribute_rings@, a)
                },
    {
        let ghost before = self.attribute_rings@;
        let ghost key = attribute@;
        let ghost ring = users@;
        let found = self.attribute_index(&attribute);
        match found {
            Some(i) => {
                self.attribute_rings.set(i, (attribute, users));
            },
            None => {
                self.attribute_rings.push((attribute, users));
            },
        }
        let ghost after = self.attribute_rings@;
        assert(after.len() > 0);
        let ghost at: int = match found {
            Some(i) => i as int,
            None => before.len() as int,
        };
        assert(after[at].0@ == key);
        assert forall|i: int, j: int| 0 <= i < j < after.len() implies #[trigger] after[i].0@
            != #[trigger] after[j].0@ by {
            if i != at && j != at {
                assert(before[i] == after[i] && before[j] == after[j]);
            } else if i == at {
                assert(before[j] == after[j]);
            } else {
                assert(before[i] == after[i]);
            }
        }
        assert forall|a: Seq<u8>| #[trigger] ring_for(after, a) == if a == key {
            Some(ring)
        } else {
            ring_for(before, a)
        } by {
            if a == key {
                lemma_ring_for_at(after, a, at);
            } else {
                if exists|i: int| 0 <= i < before.len() && #[trigger] before[i].0@ == a {
                    let i = choose|i: int| 0 <= i < before.len() && #[trigger] before[i].0@ == a;
                    assert(i != at);
                    assert(after[i] == before[i]);
                    lemma_ring_for_at(before, a, i);
                    lemma_ring_for_at(after, a, i);
                } else {
                    assert forall|i: int| 0 <= i < after.len() implies #[trigger] after[i].0@ != a by {
                        if i != at {
                            assert(after[i] == before[i]);
                        }
                    }
                }
            }
        }
    }

    /// The index of the entry for `attribute`, if there is one.
    fn attribute_index(&self, attribute: &Vec<u8>) -> (r: Option<usize>)
        ensures
            match r {
                Some(i) => i < self.attribute_rings@.len() && self.attribute_rings@[i as int].0@ == attribute@,
                None => forall|i: int|
                    0 <= i < self.attribute_rings@.len() ==> #[trigger] self.attribute_rings@[i].0@ != attribute@,
            },
    {
        let mut i: usize = 0;
        while i < self.attribute_rings.len()
            invariant
                i <= self.attribute_rings@.len(),
                forall|j: int| 0 <= j < i ==> #[trigger] self.attribute_rings@[j].0@ != attribute@,
            decreases self.attribute_rings@.len() - i,
        {
            if bytes_eq(self.attribute_rings[i].0.as_slice(), attribute.as_slice()) {
                return Some(i);
            }
            i += 1;
        }
        None
    }

    /// The ring of `attribute`, if one was published.
    pub fn get_ring_for_attribute(&self, attribute: &Vec<u8>) -> (r: Option<&Vec<G1Point>>)
        requires
            self.wf(),
        ensures
            r.is_some() == ring_for(self.attribute_rings@, attribute@).is_some(),
            r.is_some() ==> r.unwrap()@ == ring_for(self.attribute_rings@, attribute@).unwrap(),
    {
        match self.attribute_index(attribute) {
            Some(i) => {
                proof {
                    lemma_ring_for_at(self.attribute_rings@, attribute@, i as int);
                }
                Some(&self.attribute_rings[i].1)
            },
            None => None,
        }
    }

    /// Sets the default ring; the login counter is kept.
    pub fn init(&mut self, ring: Vec<G1Point>)
        requires
            old(self).wf(),
        ensures
            final(self).wf(),
            final(self).ring == Some(ring),
            final(self).login_count == old(self).login_count,
            final(self).admin == old(self).admin,
            final(self).issuers == old(self).issuers,
            final(self).attribute_rings == old(self).attribute_rings,
    {
        self.ring = Some(ring);
    }

    /// The default ring, if one is set.
    pub fn get_ring(&self) -> (r: Option<&Vec<G1Point>>)
        ensures
            r.is_some() == self.ring.is_some(),
            r.is_some() ==> *r.unwrap() == self.ring.unwrap(),
    {
        match &self.ring {
            Some(ring) => Some(ring),
            None => None,
        }
    }

    /// The number of successful verifications so far.
    pub fn get_login_count(&self) -> (r: u64)
        ensures
            r == self.login_count,
    {
        self.login_count
    }

    /// Verifies against the default ring; false when none is set. A success
    /// adds one to the counter (saturating); a failure changes nothing.
    pub fn verify(&mut self, env: &Env, msg: &Vec<u8>, sig: &RingSignature) -> (ok: bool)
        requires
            old(self).wf(),
        ensures
            final(self).wf(),
            ok == (old(self).ring.is_some() && verifies(
                msg@,
                sig.challenge@,
                scalars_view(sig.responses@),
                points_view(old(self).ring.unwrap()@),
            )),
            final(self).login_count == if ok { bumped(old(self).login_count) } else { old(self).login_count },
            final(self).admin == old(self).admin,
            final(self).issuers == old(self).issuers,
            final(self).ring == old(self).ring,
            final(self).attribute_rings == old(self).attribute_rings,
    {
        let ok = match &self.ring {
            Some(ring) => RingSigContract::verify_ring(env, msg, sig, ring),
            None => false,
        };
        if ok {
            self.count_login();
        }
        ok
    }

    /// Verifies against the ring of `attribute`; false when it has none (no
    /// other ring is tried). A success adds one to the counter (saturating);
    /// a failure changes nothing.
    pub fn verify_attribute(&mut self, env: &Env, msg: &Vec<u8>, sig: &RingSignature, attribute: &Vec<u8>) -> (ok: bool)
        requires
            old(self).wf(),
        ensures
            final(self).wf(),
            ok == (ring_for(old(self).attribute_rings@, attribute@).is_some() && verifies(
                msg@,
                sig.challenge@,
                scalars_view(sig.responses@),
                points_view(ring_for(old(self).attribute_rings@, attribute@).unwrap()),
            )),
            final(self).login_count == if ok { bumped(old(self).login_count) } else { old(self).login_count },
            final(self).admin == old(self).admin,
            final(self).issuers == old(self).issuers,
            final(self).ring == old(self).ring,
            final(self).attribute_rings == old(self).attribute_rings,
    {
        let ok = match self.get_ring_for_attribute(attribute) {
            Some(ring) => RingSigContract::verify_ring(env, msg, sig, ring),
            None => false,
        };
        if ok {
            self.count_login();
        }
        ok
    }

    /// Adds one to the counter unless it is at its largest value.
    fn count_login(&mut self)
        ensures
            final(self).login_count == bumped(old(self).login_count),
            final(self).admin == old(self).admin,
            final(self).issuers == old(self).issuers,
            final(self).ring == old(self).ring,
            final(self).attribute_rings == old(self).attribute_rings,
    {
        self.login_count = self.login_count.saturating_add(1);
    }
}

} // verus!
