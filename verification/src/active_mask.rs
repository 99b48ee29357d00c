//! Bitmask of active subpasses, used to cull subpasses of a render pass.

use vstd::prelude::*;

use crate::subpass::SubpassIndex;

verus! {

/// True when bit `i` of `bits` is set.
pub open spec fn bit_set(bits: u32, i: u32) -> bool {
    (bits >> i) & 1u32 == 1u32
}

/// Bitmask selecting active subpasses.
///
/// This mask is currently limited to 32 subpasses (`u32::BITS`).
#[derive(Clone, Copy, Debug, PartialEq, Eq, Hash, Structural)]
pub struct ActiveSubpassMask(pub u32);

impl Default for ActiveSubpassMask {
    fn default() -> (res: Self)
        ensures
            res.0 == 0,
    {
        ActiveSubpassMask(0)
    }
}

impl ActiveSubpassMask {
    /// Maximum number of subpasses addressable by this mask.
    pub const MAX_SUBPASSES: u32 = 32;

    /// True when subpass `i` is marked active in this mask.
    pub open spec fn has(self, i: u32) -> bool {
        i < 32 && bit_set(self.0, i)
    }

    /// All 32 possible subpasses active.
    pub fn all() -> (res: Self)
        ensures
            res.0 == u32::MAX,
            forall|i: u32| i < 32 ==> #[trigger] res.has(i),
    {
        let res = ActiveSubpassMask(u32::MAX);
        assert forall|i: u32| i < 32 implies #[trigger] res.has(i) by {
            let m: u32 = u32::MAX;
            assert(i < 32 ==> (m >> i) & 1u32 == 1u32) by (bit_vector)
                requires m == 0xffff_ffffu32;
        }
        res
    }

    /// No subpasses active.
    pub fn none() -> (res: Self)
        ensures
            res.0 == 0,
            forall|i: u32| !(#[trigger] res.has(i)),
    {
        let res = ActiveSubpassMask(0);
        assert forall|i: u32| !(#[trigger] res.has(i)) by {
            let z: u32 = 0;
            assert((z >> i) & 1u32 == 0u32) by (bit_vector)
                requires z == 0u32;
        }
        res
    }
}

/// `bits` with bit `i` set.
pub open spec fn with_bit(bits: u32, i: u32) -> u32 {
    bits | (1u32 << i)
}

/// `bits` with bit `i` cleared.
pub open spec fn without_bit(bits: u32, i: u32) -> u32 {
    bits & !(1u32 << i)
}

/// Number of set bits among the `n` lowest bits of `bits`.
pub open spec fn low_bit_count(bits: u32, n: nat) -> nat
    decreases n,
{
    if n == 0 {
        0
    } else {
        low_bit_count(bits, (n - 1) as nat) + if bit_set(bits, (n - 1) as u32) {
            1nat
        } else {
            0nat
        }
    }
}

/// The mask that has exactly the bits of `indices` set, built left to right.
pub open spec fn indices_bits(indices: Seq<SubpassIndex>) -> u32
    decreases indices.len(),
{
    if indices.len() == 0 {
        0
    } else {
        with_bit(indices_bits(indices.drop_last()), indices.last().0)
    }
}

/// Setting bit `i` sets it and leaves every other bit as it was.
pub proof fn lemma_with_bit(bits: u32, i: u32, j: u32)
    requires
        i < 32,
        j < 32,
    ensures
        bit_set(with_bit(bits, i), j) == (j == i || bit_set(bits, j)),
{
    assert(bit_set(bits | (1u32 << i), j) == (j == i || bit_set(bits, j))) by (bit_vector)
        requires
            i < 32,
            j < 32,
    ;
}

/// Clearing bit `i` clears it and leaves every other bit as it was.
pub proof fn lemma_without_bit(bits: u32, i: u32, j: u32)
    requires
        i < 32,
        j < 32,
    ensures
        bit_set(without_bit(bits, i), j) == (j != i && bit_set(bits, j)),
{
    assert(bit_set(bits & !(1u32 << i), j) == (j != i && bit_set(bits, j))) by (bit_vector)
        requires
            i < 32,
            j < 32,
    ;
}

proof fn lemma_and_bit(bits: u32, i: u32)
    requires
        i < 32,
    ensures
        ((bits & (1u32 << i)) != 0u32) == bit_set(bits, i),
{
    assert(((bits & (1u32 << i)) != 0u32) == bit_set(bits, i)) by (bit_vector)
        requires
            i < 32,
    ;
}

impl ActiveSubpassMask {
    /// The set of active subpass indices.
    pub open spec fn active_set(self) -> Set<u32> {
        Set::new(|i: u32| self.has(i))
    }

    /// Returns true when a given subpass index is active.
    pub fn is_active(self, index: SubpassIndex) -> (res: bool)
        requires
            index.0 < Self::MAX_SUBPASSES,
        ensures
            res == self.has(index.0),
    {
        let bit = 1u32 << index.0;
        proof {
            lemma_and_bit(self.0, index.0);
        }
        (self.0 & bit) != 0
    }

    /// Returns a copy with the given subpass marked active.
    pub fn with(self, index: SubpassIndex) -> (res: Self)
        requires
            index.0 < Self::MAX_SUBPASSES,
        ensures
            res.0 == with_bit(self.0, index.0),
            forall|j: u32| #[trigger] res.has(j) == (j == index.0 || self.has(j)),
    {
        let bit = 1u32 << index.0;
        let res = ActiveSubpassMask(self.0 | bit);
        proof {
            assert forall|j: u32| #[trigger] res.has(j) == (j == index.0 || self.has(j)) by {
                if j < 32 {
                    lemma_with_bit(self.0, index.0, j);
                }
            }
        }
        res
    }

    /// Returns a copy with the given subpass marked inactive.
    pub fn without(self, index: SubpassIndex) -> (res: Self)
        requires
            index.0 < Self::MAX_SUBPASSES,
        ensures
            res.0 == without_bit(self.0, index.0),
            forall|j: u32| #[trigger] res.has(j) == (j != index.0 && self.has(j)),
    {
        let bit = 1u32 << index.0;
        let res = ActiveSubpassMask(self.0 & !bit);
        proof {
            assert forall|j: u32| #[trigger] res.has(j) == (j != index.0 && self.has(j)) by {
                if j < 32 {
                    lemma_without_bit(self.0, index.0, j);
                }
            }
        }
        res
    }

    /// Returns the number of active subpasses.
    pub fn count_active(self) -> (res: u32)
        ensures
            res == low_bit_count(self.0, 32),
    {
        let mut count: u32 = 0;
        let mut k: u32 = 0;
        while k < 32
            invariant
                k <= 32,
                count == low_bit_count(self.0, k as nat),
                count <= k,
            decreases 32 - k,
        {
            if (self.0 >> k) & 1u32 == 1u32 {
                count = count + 1;
            }
            k = k + 1;
        }
        count
    }

    /// Build a mask from an index slice.
    pub fn from_indices(indices: &[SubpassIndex]) -> (res: Self)
        requires
            forall|k: int| 0 <= k < indices@.len() ==> (#[trigger] indices@[k]).0 < 32,
        ensures
            res.0 == indices_bits(indices@),
            forall|j: u32| #[trigger] res.has(j) == (j < 32 && exists|k: int| 0 <= k < indices@.len() && indices@[k].0 == j),
    {
        let mut mask = ActiveSubpassMask::none();
        let mut k: usize = 0;
        while k < indices.len()
            invariant
                forall|k: int| 0 <= k < indices@.len() ==> (#[trigger] indices@[k]).0 < 32,
                k <= indices@.len(),
                mask.0 == indices_bits(indices@.subrange(0, k as int)),
                forall|j: u32| #[trigger] mask.has(j) == (j < 32 && exists|m: int| 0 <= m < k && indices@[m].0 == j),
            decreases indices@.len() - k,
        {
            let index = indices[k];
            let ghost prev = mask;
            mask = mask.with(index);
            proof {
                let next = indices@.subrange(0, k + 1);
                assert(next.drop_last() =~= indices@.subrange(0, k as int));
                assert forall|j: u32| #[trigger] mask.has(j) == (j < 32 && exists|m: int| 0 <= m < k + 1 && indices@[m].0 == j) by {
                    if j < 32 && j != index.0 && (exists|m: int| 0 <= m < k + 1 && indices@[m].0 == j) {
                        let m = choose|m: int| 0 <= m < k + 1 && indices@[m].0 == j;
                        assert(m < k);
                        assert(prev.has(j));
                    }
                }
            }
            k = k + 1;
        }
        assert(indices@.subrange(0, k as int) =~= indices@);
        mask
    }
}

// ---------------------------------------------------------------------------
// Laws
// ---------------------------------------------------------------------------

/// Two masks with the same 32 bits are the same mask.
pub proof fn lemma_bits_ext(a: u32, b: u32)
    requires
        forall|i: u32| i < 32 ==> bit_set(a, i) == bit_set(b, i),
    ensures
        a == b,
{
    assert(bit_set(a, 0u32) == bit_set(b, 0u32));
    assert(bit_set(a, 1u32) == bit_set(b, 1u32));
    assert(bit_set(a, 2u32) == bit_set(b, 2u32));
    assert(bit_set(a, 3u32) == bit_set(b, 3u32));
    assert(bit_set(a, 4u32) == bit_set(b, 4u32));
    assert(bit_set(a, 5u32) == bit_set(b, 5u32));
    assert(bit_set(a, 6u32) == bit_set(b, 6u32));
    assert(bit_set(a, 7u32) == bit_set(b, 7u32));
    assert(bit_set(a, 8u32) == bit_set(b, 8u32));
    assert(bit_set(a, 9u32) == bit_set(b, 9u32));
    assert(bit_set(a, 10u32) == bit_set(b, 10u32));
    assert(bit_set(a, 11u32) == bit_set(b, 11u32));
    assert(bit_set(a, 12u32) == bit_set(b, 12u32));
    assert(bit_set(a, 13u32) == bit_set(b, 13u32));
    assert(bit_set(a, 14u32) == bit_set(b, 14u32));
    assert(bit_set(a, 15u32) == bit_set(b, 15u32));
    assert(bit_set(a, 16u32) == bit_set(b, 16u32));
    assert(bit_set(a, 17u32) == bit_set(b, 17u32));
    assert(bit_set(a, 18u32) == bit_set(b, 18u32));
    assert(bit_set(a, 19u32) == bit_set(b, 19u32));
    assert(bit_set(a, 20u32) == bit_set(b, 20u32));
    assert(bit_set(a, 21u32) == bit_set(b, 21u32));
    assert(bit_set(a, 22u32) == bit_set(b, 22u32));
    assert(bit_set(a, 23u32) == bit_set(b, 23u32));
    assert(bit_set(a, 24u32) == bit_set(b, 24u32));
    assert(bit_set(a, 25u32) == bit_set(b, 25u32));
    assert(bit_set(a, 26u32) == bit_set(b, 26u32));
    assert(bit_set(a, 27u32) == bit_set(b, 27u32));
    assert(bit_set(a, 28u32) == bit_set(b, 28u32));
    assert(bit_set(a, 29u32) == bit_set(b, 29u32));
    assert(bit_set(a, 30u32) == bit_set(b, 30u32));
    assert(bit_set(a, 31u32) == bit_set(b, 31u32));
    assert(a == b) by (bit_vector)
        requires
            ((a >> 0u32) & 1u32 == 1u32) == ((b >> 0u32) & 1u32 == 1u32),
            ((a >> 1u32) & 1u32 == 1u32) == ((b >> 1u32) & 1u32 == 1u32),
            ((a >> 2u32) & 1u32 == 1u32) == ((b >> 2u32) & 1u32 == 1u32),
            ((a >> 3u32) & 1u32 == 1u32) == ((b >> 3u32) & 1u32 == 1u32),
            ((a >> 4u32) & 1u32 == 1u32) == ((b >> 4u32) & 1u32 == 1u32),
            ((a >> 5u32) & 1u32 == 1u32) == ((b >> 5u32) & 1u32 == 1u32),
            ((a >> 6u32) & 1u32 == 1u32) == ((b >> 6u32) & 1u32 == 1u32),
            ((a >> 7u32) & 1u32 == 1u32) == ((b >> 7u32) & 1u32 == 1u32),
            ((a >> 8u32) & 1u32 == 1u32) == ((b >> 8u32) & 1u32 == 1u32),
            ((a >> 9u32) & 1u32 == 1u32) == ((b >> 9u32) & 1u32 == 1u32),
            ((a >> 10u32) & 1u32 == 1u32) == ((b >> 10u32) & 1u32 == 1u32),
            ((a >> 11u32) & 1u32 == 1u32) == ((b >> 11u32) & 1u32 == 1u32),
            ((a >> 12u32) & 1u32 == 1u32) == ((b >> 12u32) & 1u32 == 1u32),
            ((a >> 13u32) & 1u32 == 1u32) == ((b >> 13u32) & 1u32 == 1u32),
            ((a >> 14u32) & 1u32 == 1u32) == ((b >> 14u32) & 1u32 == 1u32),
            ((a >> 15u32) & 1u32 == 1u32) == ((b >> 15u32) & 1u32 == 1u32),
            ((a >> 16u32) & 1u32 == 1u32) == ((b >> 16u32) & 1u32 == 1u32),
            ((a >> 17u32) & 1u32 == 1u32) == ((b >> 17u32) & 1u32 == 1u32),
            ((a >> 18u32) & 1u32 == 1u32) == ((b >> 18u32) & 1u32 == 1u32),
            ((a >> 19u32) & 1u32 == 1u32) == ((b >> 19u32) & 1u32 == 1u32),
            ((a >> 20u32) & 1u32 == 1u32) == ((b >> 20u32) & 1u32 == 1u32),
            ((a >> 21u32) & 1u32 == 1u32) == ((b >> 21u32) & 1u32 == 1u32),
            ((a >> 22u32) & 1u32 == 1u32) == ((b >> 22u32) & 1u32 == 1u32),
            ((a >> 23u32) & 1u32 == 1u32) == ((b >> 23u32) & 1u32 == 1u32),
            ((a >> 24u32) & 1u32 == 1u32) == ((b >> 24u32) & 1u32 == 1u32),
            ((a >> 25u32) & 1u32 == 1u32) == ((b >> 25u32) & 1u32 == 1u32),
            ((a >> 26u32) & 1u32 == 1u32) == ((b >> 26u32) & 1u32 == 1u32),
            ((a >> 27u32) & 1u32 == 1u32) == ((b >> 27u32) & 1u32 == 1u32),
            ((a >> 28u32) & 1u32 == 1u32) == ((b >> 28u32) & 1u32 == 1u32),
            ((a >> 29u32) & 1u32 == 1u32) == ((b >> 29u32) & 1u32 == 1u32),
            ((a >> 30u32) & 1u32 == 1u32) == ((b >> 30u32) & 1u32 == 1u32),
            ((a >> 31u32) & 1u32 == 1u32) == ((b >> 31u32) & 1u32 == 1u32),
    ;
}

/// Clearing a bit that is not set leaves the mask unchanged.
pub proof fn lemma_without_unset_is_noop(bits: u32, i: u32)
    requires
        i < 32,
        !bit_set(bits, i),
    ensures
        without_bit(bits, i) == bits,
{
    assert forall|j: u32| j < 32 implies bit_set(without_bit(bits, i), j) == bit_set(bits, j) by {
        lemma_without_bit(bits, i, j);
    }
    lemma_bits_ext(without_bit(bits, i), bits);
}

/// The mask built from `indices` has bit `j` set exactly when `j` is one of the indices.
pub proof fn lemma_indices_bits_has(indices: Seq<SubpassIndex>, j: u32)
    requires
        forall|k: int| 0 <= k < indices.len() ==> (#[trigger] indices[k]).0 < 32,
        j < 32,
    ensures
        bit_set(indices_bits(indices), j) == exists|k: int| 0 <= k < indices.len() && indices[k].0 == j,
    decreases indices.len(),
{
    if indices.len() > 0 {
        let init = indices.drop_last();
        lemma_indices_bits_has(init, j);
        lemma_with_bit(indices_bits(init), indices.last().0, j);
        if exists|k: int| 0 <= k < indices.len() && indices[k].0 == j {
            let k = choose|k: int| 0 <= k < indices.len() && indices[k].0 == j;
            if k < indices.len() - 1 {
                assert(init[k].0 == j);
            }
        }
        if exists|k: int| 0 <= k < init.len() && init[k].0 == j {
            let k = choose|k: int| 0 <= k < init.len() && init[k].0 == j;
            assert(indices[k].0 == j);
        }
    } else {
        let z: u32 = 0;
        assert((z >> j) & 1u32 == 0u32) by (bit_vector)
            requires
                z == 0u32,
        ;
    }
}

/// The mask built from a list of indices depends only on which indices are
/// listed: order and repetitions do not matter.
pub proof fn lemma_indices_bits_order_independent(s1: Seq<SubpassIndex>, s2: Seq<SubpassIndex>)
    requires
        forall|k: int| 0 <= k < s1.len() ==> (#[trigger] s1[k]).0 < 32,
        forall|k: int| 0 <= k < s2.len() ==> (#[trigger] s2[k]).0 < 32,
        s1.map_values(|x: SubpassIndex| x.0).to_set() == s2.map_values(|x: SubpassIndex| x.0).to_set(),
    ensures
        indices_bits(s1) == indices_bits(s2),
{
    let v1 = s1.map_values(|x: SubpassIndex| x.0);
    let v2 = s2.map_values(|x: SubpassIndex| x.0);
    let t1 = v1.to_set();
    let t2 = v2.to_set();
    assert forall|j: u32| j < 32 implies bit_set(indices_bits(s1), j) == bit_set(indices_bits(s2), j) by {
        lemma_indices_bits_has(s1, j);
        lemma_indices_bits_has(s2, j);
        if exists|k: int| 0 <= k < s1.len() && s1[k].0 == j {
            let k = choose|k: int| 0 <= k < s1.len() && s1[k].0 == j;
            assert(v1[k] == j);
            assert(t2.contains(j));
            let m = choose|m: int| 0 <= m < v2.len() && v2[m] == j;
            assert(s2[m].0 == j);
        }
        if exists|k: int| 0 <= k < s2.len() && s2[k].0 == j {
            let k = choose|k: int| 0 <= k < s2.len() && s2[k].0 == j;
            assert(v2[k] == j);
            assert(t1.contains(j));
            let m = choose|m: int| 0 <= m < v1.len() && v1[m] == j;
            assert(s1[m].0 == j);
        }
    }
    lemma_bits_ext(indices_bits(s1), indices_bits(s2));
}

/// The set bits among the `n` lowest.
pub open spec fn low_bits(bits: u32, n: nat) -> Set<u32> {
    Set::new(|i: u32| i < n && bit_set(bits, i))
}

/// Counting the low bits one by one counts the set of low set bits.
pub proof fn lemma_low_bit_count(bits: u32, n: nat)
    requires
        n <= 32,
    ensures
        low_bits(bits, n).finite(),
        low_bit_count(bits, n) == low_bits(bits, n).len(),
    decreases n,
{
    if n == 0 {
        assert(low_bits(bits, 0) =~= Set::<u32>::empty());
    } else {
        let m = (n - 1) as nat;
        lemma_low_bit_count(bits, m);
        if bit_set(bits, m as u32) {
            assert(low_bits(bits, n) =~= low_bits(bits, m).insert(m as u32));
        } else {
            assert(low_bits(bits, n) =~= low_bits(bits, m));
        }
    }
}

/// The number of active subpasses is the size of the set of active subpasses.
pub proof fn lemma_count_active_is_set_size(mask: ActiveSubpassMask)
    ensures
        mask.active_set().finite(),
        low_bit_count(mask.0, 32) == mask.active_set().len(),
{
    lemma_low_bit_count(mask.0, 32);
    assert(mask.active_set() =~= low_bits(mask.0, 32));
}

/// A mask built from a list of indices activates exactly the listed indices,
/// and counts each distinct index once.
pub proof fn lemma_from_indices_active_set(indices: Seq<SubpassIndex>)
    requires
        forall|k: int| 0 <= k < indices.len() ==> (#[trigger] indices[k]).0 < 32,
    ensures
        ActiveSubpassMask(indices_bits(indices)).active_set() == indices.map_values(|x: SubpassIndex| x.0).to_set(),
        low_bit_count(indices_bits(indices), 32) == indices.map_values(|x: SubpassIndex| x.0).to_set().len(),
{
    let mask = ActiveSubpassMask(indices_bits(indices));
    let v = indices.map_values(|x: SubpassIndex| x.0);
    let t = v.to_set();
    assert forall|j: u32| mask.active_set().contains(j) == t.contains(j) by {
        if j < 32 {
            lemma_indices_bits_has(indices, j);
            if exists|k: int| 0 <= k < indices.len() && indices[k].0 == j {
                let k = choose|k: int| 0 <= k < indices.len() && indices[k].0 == j;
                assert(v[k] == j);
            }
            if t.contains(j) {
                let m = choose|m: int| 0 <= m < v.len() && v[m] == j;
                assert(indices[m].0 == j);
            }
        } else if t.contains(j) {
            let m = choose|m: int| 0 <= m < v.len() && v[m] == j;
            assert(indices[m].0 == j);
        }
    }
    assert(mask.active_set() =~= t);
    lemma_count_active_is_set_size(mask);
}

} // verus!
