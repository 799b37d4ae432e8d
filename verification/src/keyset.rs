//! The set of keys that are held down, kept in a `bit_set::BitSet`.

use vstd::prelude::*;

verus! {

/// `bit_set::BitSet`, of which nothing is known here but what the functions
/// below say of its members.
#[verifier::external_type_specification]
#[verifier::external_body]
#[verifier::reject_recursive_types(B)]
pub struct ExBitSet<B>(bit_set::BitSet<B>);

/// The numbers that a bit set holds.
pub uninterp spec fn bit_set_members(set: bit_set::BitSet<u32>) -> Set<usize>;

/// `BitSet::new`: a set that holds nothing.
#[verifier::external_body]
fn bit_set_new() -> (set: bit_set::BitSet<u32>)
    ensures
        bit_set_members(set) == Set::<usize>::empty(),
{
    bit_set::BitSet::new()
}

/// `BitSet::insert`: adds `value` to the set and says whether it was new. The
/// set grows to `value + 1` bits, so the largest `usize` is left out.
#[verifier::external_body]
fn bit_set_insert(set: &mut bit_set::BitSet<u32>, value: usize) -> (fresh: bool)
    requires
        value < usize::MAX,
    ensures
        bit_set_members(*final(set)) == bit_set_members(*old(set)).insert(value),
        fresh == !bit_set_members(*old(set)).contains(value),
{
    set.insert(value)
}

/// `BitSet::remove`: takes `value` out of the set and says whether it was
/// there.
#[verifier::external_body]
fn bit_set_remove(set: &mut bit_set::BitSet<u32>, value: usize) -> (present: bool)
    ensures
        bit_set_members(*final(set)) == bit_set_members(*old(set)).remove(value),
        present == bit_set_members(*old(set)).contains(value),
{
    set.remove(value)
}

/// `BitSet::contains`: whether `value` is in the set.
#[verifier::external_body]
fn bit_set_contains(set: &bit_set::BitSet<u32>, value: usize) -> (present: bool)
    ensures
        present == bit_set_members(*set).contains(value),
{
    set.contains(value)
}

/// A set of key codes.
pub struct KeySet {
    bits: bit_set::BitSet<u32>,
}

impl View for KeySet {
    type V = Set<u16>;

    closed spec fn view(&self) -> Set<u16> {
        Set::new(|key: u16| bit_set_members(self.bits).contains(key as usize))
    }
}

impl KeySet {
    /// A set with no key in it.
    pub fn new() -> (keys: KeySet)
        ensures
            keys@ == Set::<u16>::empty(),
    {
        let keys = KeySet { bits: bit_set_new() };
        assert(keys@ =~= Set::<u16>::empty());
        keys
    }

    /// Adds `key` and says whether it was new.
    pub fn insert(&mut self, key: u16) -> (fresh: bool)
        ensures
            final(self)@ == old(self)@.insert(key),
            fresh == !old(self)@.contains(key),
    {
        let fresh: bool = bit_set_insert(&mut self.bits, key as usize);
        assert(self@ =~= old(self)@.insert(key));
        fresh
    }

    /// Takes `key` out and says whether it was there.
    pub fn remove(&mut self, key: u16) -> (present: bool)
        ensures
            final(self)@ == old(self)@.remove(key),
            present == old(self)@.contains(key),
    {
        let present: bool = bit_set_remove(&mut self.bits, key as usize);
        assert(self@ =~= old(self)@.remove(key));
        present
    }

    /// Whether `key` is in the set.
    pub fn contains(&self, key: u16) -> (present: bool)
        ensures
            present == self@.contains(key),
    {
        bit_set_contains(&self.bits, key as usize)
    }
}

} // verus!
