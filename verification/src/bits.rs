//! The bit sets that the engine keeps its marks in.
//!
//! Both come from outside crates. Verus does not read their code: each
//! function here makes one call, and its contract says what the call does to
//! the set of positions whose bit is on.
use fixedbitset::FixedBitSet;
use vstd::prelude::*;

verus! {

/// A set of bit positions that grows as bits are turned on: a
/// `datazoo::Bitset` over a boxed slice of blocks.
#[verifier::external_body]
#[derive(Debug)]
pub struct Bits {
    inner: datazoo::Bitset<Box<[u32]>>,
}

/// The positions of the bits of `bits` that are on.
pub uninterp spec fn bits_on(bits: Bits) -> Set<nat>;

/// A bit set without any bit on.
///
/// Makes a `datazoo::Bitset` over an empty box of blocks. `Bitset::bit` is
/// `false` for every position past the blocks, so no bit is on.
#[verifier::external_body]
pub(crate) fn bits_new() -> (bits: Bits)
    ensures
        bits_on(bits) == Set::<nat>::empty(),
{
    Bits { inner: datazoo::Bitset(Box::default()) }
}

/// A copy of `bits`.
///
/// Calls the `Clone` that `datazoo::Bitset` derives, which clones the blocks.
#[verifier::external_body]
pub(crate) fn bits_clone(bits: &Bits) -> (copy: Bits)
    ensures
        bits_on(copy) == bits_on(*bits),
{
    Bits { inner: bits.inner.clone() }
}

/// Turns the bit at `bit` on.
///
/// Calls `datazoo::Bitset::enable_bit_extending`, which adds zeroed blocks
/// until `bit` has one and then sets that bit: the other bits stay as they
/// were.
#[verifier::external_body]
pub(crate) fn bits_enable(bits: &mut Bits, bit: usize)
    ensures
        bits_on(*final(bits)) == bits_on(*old(bits)).insert(bit as nat),
{
    bits.inner.enable_bit_extending(bit);
}

/// Whether the bit at `at` is on.
///
/// Calls `datazoo::Bitset::bit`.
#[verifier::external_body]
pub(crate) fn bits_test(bits: &Bits, at: usize) -> (on: bool)
    ensures
        on == bits_on(*bits).contains(at as nat),
{
    bits.inner.bit(at)
}

/// The positions of the bits that are on, in ascending order.
///
/// Collects `datazoo::Bitset::ones`, which walks the blocks from the first
/// and, within a block, the bits from the lowest. It counts positions in
/// `u32`, so no bit past `u32::MAX` may be on.
#[verifier::external_body]
pub(crate) fn bits_ones(bits: &Bits) -> (ones: Vec<u32>)
    requires
        forall|bit: nat| bits_on(*bits).contains(bit) ==> bit <= u32::MAX,
    ensures
        forall|i: int, j: int| 0 <= i < j < ones@.len() ==> ones@[i] < ones@[j],
        forall|i: int| 0 <= i < ones@.len() ==> bits_on(*bits).contains(ones@[i] as nat),
        forall|bit: nat|
            bits_on(*bits).contains(bit) ==> exists|i: int|
                0 <= i < ones@.len() && ones@[i] == bit,
{
    bits.inner.ones().collect()
}

/// The positions below `n`.
pub open spec fn below(n: nat) -> Set<nat> {
    Set::new(|at: nat| at < n)
}

/// There are `n` positions below `n`.
pub proof fn lemma_below(n: nat)
    ensures
        below(n).finite(),
        below(n).len() == n,
    decreases n,
{
    if n == 0 {
        assert(below(n) =~= Set::<nat>::empty());
    } else {
        lemma_below((n - 1) as nat);
        assert(below((n - 1) as nat).insert((n - 1) as nat) =~= below(n));
    }
}

/// A set of positions below `n` has `n` members exactly when it holds every
/// position below `n`.
pub proof fn lemma_all_below(on: Set<nat>, n: nat)
    requires
        on.subset_of(below(n)),
    ensures
        on.finite(),
        on.len() <= n,
        on.len() == n <==> on == below(n),
{
    lemma_below(n);
    vstd::set_lib::lemma_len_subset(on, below(n));
    if on.len() == n {
        vstd::set_lib::lemma_subset_equality(on, below(n));
    }
}

/// `fixedbitset::FixedBitSet`, a set of bit positions of a fixed length.
/// Nothing is known of a value but what the functions below say.
#[verifier::external_type_specification]
#[verifier::external_body]
pub struct ExFixedBitSet(FixedBitSet);

/// The positions of the bits of `bits` that are on.
pub uninterp spec fn fixed_on(bits: FixedBitSet) -> Set<nat>;

/// How many bits `bits` has, on or off.
pub uninterp spec fn fixed_len(bits: FixedBitSet) -> nat;

/// A bit set of `len` bits, all off.
///
/// Calls `fixedbitset::FixedBitSet::with_capacity`.
#[verifier::external_body]
pub(crate) fn fixed_with_capacity(len: usize) -> (bits: FixedBitSet)
    ensures
        fixed_on(bits) == Set::<nat>::empty(),
        fixed_len(bits) == len,
{
    FixedBitSet::with_capacity(len)
}

/// Turns the bit at `bit` on.
///
/// Calls `fixedbitset::FixedBitSet::set` with `true`, which panics unless
/// `bit` is below the length.
#[verifier::external_body]
pub(crate) fn fixed_enable(bits: &mut FixedBitSet, bit: usize)
    requires
        bit < fixed_len(*old(bits)),
    ensures
        fixed_on(*final(bits)) == fixed_on(*old(bits)).insert(bit as nat),
        fixed_len(*final(bits)) == fixed_len(*old(bits)),
{
    bits.set(bit, true);
}

/// How many bits are on.
///
/// Calls `fixedbitset::FixedBitSet::count_ones` over the whole set.
#[verifier::external_body]
pub(crate) fn fixed_count_ones(bits: &FixedBitSet) -> (count: usize)
    ensures
        count == fixed_on(*bits).len(),
{
    bits.count_ones(..)
}

} // verus!
