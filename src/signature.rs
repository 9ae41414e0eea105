use bit_set::BitSet;
use vstd::prelude::*;

use crate::config::{ComponentType, MAX_COMPONENTS};

verus! {

/// A set of component types: the ones an entity holds, or the ones a
/// system requires. Held in a `bit_set::BitSet`, whose declaration Verus
/// refuses, so the struct is opaque and its members are named by
/// `members_of`.
#[verifier::external_body]
pub struct Signature {
    bits: BitSet<u32>,
}

/// The members of a signature.
pub uninterp spec fn members_of(s: Signature) -> Set<nat>;

impl View for Signature {
    type V = Set<nat>;

    open spec fn view(&self) -> Set<nat> {
        members_of(*self)
    }
}

impl Signature {
    /// Every member names a component type below the signature width.
    pub open spec fn wf(&self) -> bool {
        forall|i: nat| #[trigger] self@.contains(i) ==> i < MAX_COMPONENTS
    }

    /// The empty signature. Relies on `BitSet::new`: the new set is empty.
    #[verifier::external_body]
    pub fn new() -> (r: Signature)
        ensures
            members_of(r) == Set::<nat>::empty(),
            r.wf(),
    {
        Signature { bits: BitSet::new() }
    }

    /// Adds component type `c`; true if it was absent. Relies on
    /// `BitSet::insert`, which grows the set to hold `c`.
    #[verifier::external_body]
    pub fn insert(&mut self, c: ComponentType) -> (r: bool)
        requires
            old(self).wf(),
            c < MAX_COMPONENTS,
        ensures
            members_of(*final(self)) == members_of(*old(self)).insert(c as nat),
            final(self).wf(),
            r == !members_of(*old(self)).contains(c as nat),
    {
        self.bits.insert(c as usize)
    }

    /// Removes component type `c`; true if it was present. Relies on
    /// `BitSet::remove`.
    #[verifier::external_body]
    pub fn remove(&mut self, c: ComponentType) -> (r: bool)
        requires
            old(self).wf(),
        ensures
            members_of(*final(self)) == members_of(*old(self)).remove(c as nat),
            final(self).wf(),
            r == members_of(*old(self)).contains(c as nat),
    {
        self.bits.remove(c as usize)
    }

    /// Whether component type `c` is a member. Relies on `BitSet::contains`.
    #[verifier::external_body]
    pub fn contains(&self, c: ComponentType) -> (r: bool)
        ensures
            r == members_of(*self).contains(c as nat),
    {
        self.bits.contains(c as usize)
    }

    /// Whether every member of `self` is a member of `other`. Relies on
    /// `BitSet::is_subset`.
    #[verifier::external_body]
    pub fn is_subset(&self, other: &Signature) -> (r: bool)
        ensures
            r == members_of(*self).subset_of(members_of(*other)),
    {
        self.bits.is_subset(&other.bits)
    }

    /// A signature with the same members. Relies on `BitSet::clone`.
    #[verifier::external_body]
    pub fn copied(&self) -> (r: Signature)
        ensures
            members_of(r) == self@,
    {
        Signature { bits: self.bits.clone() }
    }
}

} // verus!
