//! Sets of packet identifiers: the `FixedBitSet` of the `fixedbitset` crate as a sequence of bits.
//!
//! The set is opaque to the verifier. The spec function `bits` names the bits that it holds, and
//! the items below state what each method of the crate does to them. They speak of sets that are
//! changed by these methods alone: a write to the raw blocks can set bits past the end, which
//! `is_clear` and `ones` would then see.
use fixedbitset::FixedBitSet;
use vstd::prelude::*;

verus! {

#[verifier::external_type_specification]
#[verifier::external_body]
pub struct ExFixedBitSet(fixedbitset::FixedBitSet);

/// The bits that a set holds, from bit 0 on.
pub uninterp spec fn bits(s: fixedbitset::FixedBitSet) -> Seq<bool>;

/// The number of bits that are set.
pub open spec fn count(s: Seq<bool>) -> nat
    decreases s.len(),
{
    if s.len() == 0 {
        0
    } else {
        count(s.drop_last()) + if s.last() {
            1nat
        } else {
            0
        }
    }
}

/// The positions of the bits that are set, ascending.
pub open spec fn positions(s: Seq<bool>) -> Seq<usize>
    decreases s.len(),
{
    if s.len() == 0 {
        Seq::empty()
    } else if s.last() {
        positions(s.drop_last()).push((s.len() - 1) as usize)
    } else {
        positions(s.drop_last())
    }
}

/// Bits that are all clear.
pub open spec fn all_clear(n: nat) -> Seq<bool> {
    Seq::new(n, |i: int| false)
}

/// Whether a bit is set; bits past the end are not.
pub open spec fn is_set(s: Seq<bool>, i: int) -> bool {
    0 <= i < s.len() && s[i]
}

/// `FixedBitSet::with_capacity` makes a set of `bits` bits, all clear.
pub assume_specification[ fixedbitset::FixedBitSet::with_capacity ](n: usize) -> (r:
    fixedbitset::FixedBitSet)
    ensures
        bits(r) == all_clear(n as nat),
;

/// `FixedBitSet::contains` tells whether a bit is set, and is false past the end.
pub assume_specification[ fixedbitset::FixedBitSet::contains ](
    s: &fixedbitset::FixedBitSet,
    bit: usize,
) -> (r: bool)
    ensures
        r == is_set(bits(*s), bit as int),
;

/// `FixedBitSet::insert` sets a bit. It panics past the end.
pub assume_specification[ fixedbitset::FixedBitSet::insert ](
    s: &mut fixedbitset::FixedBitSet,
    bit: usize,
)
    requires
        bit < bits(*old(s)).len(),
    ensures
        bits(*final(s)) == bits(*old(s)).update(bit as int, true),
;

/// `FixedBitSet::set` gives a bit a value. It panics past the end.
pub assume_specification[ fixedbitset::FixedBitSet::set ](
    s: &mut fixedbitset::FixedBitSet,
    bit: usize,
    enabled: bool,
)
    requires
        bit < bits(*old(s)).len(),
    ensures
        bits(*final(s)) == bits(*old(s)).update(bit as int, enabled),
;

/// `FixedBitSet::clear` clears all bits and keeps their number.
pub assume_specification[ fixedbitset::FixedBitSet::clear ](s: &mut fixedbitset::FixedBitSet)
    ensures
        bits(*final(s)) == all_clear(bits(*old(s)).len()),
;

/// `FixedBitSet::is_clear` tells whether no bit is set.
pub assume_specification[ fixedbitset::FixedBitSet::is_clear ](
    s: &fixedbitset::FixedBitSet,
) -> (r: bool)
    ensures
        r == (count(bits(*s)) == 0),
;

/// `Clone for FixedBitSet` gives a set with the same bits.
pub assume_specification[ <fixedbitset::FixedBitSet as Clone>::clone ](
    s: &fixedbitset::FixedBitSet,
) -> (r: fixedbitset::FixedBitSet)
    ensures
        bits(r) == bits(*s),
;

/// `FixedBitSet::count_ones` over the whole set counts the bits that are set.
#[verifier::external_body]
pub(crate) fn count_ones(s: &FixedBitSet) -> (r: usize)
    ensures
        r == count(bits(*s)),
{
    s.count_ones(..)
}

/// `FixedBitSet::ones` gives the positions of the bits that are set, ascending.
#[verifier::external_body]
pub(crate) fn ones(s: &FixedBitSet) -> (r: Vec<usize>)
    ensures
        r@ == positions(bits(*s)),
{
    s.ones().collect()
}

/// `FixedBitSet::as_slice` lends the blocks of the set, each of the size of a `usize`: as many
/// as its bits fill.
#[verifier::external_body]
pub(crate) fn block_count(s: &FixedBitSet) -> (r: usize)
    ensures
        r == (bits(*s).len() + usize::BITS - 1) / (usize::BITS as int),
{
    s.as_slice().len()
}

/// The number of bits that are set after one bit has changed.
pub proof fn count_update(s: Seq<bool>, i: int, v: bool)
    requires
        0 <= i < s.len(),
    ensures
        count(s.update(i, v)) == count(s) - (if s[i] {
            1int
        } else {
            0
        }) + (if v {
            1int
        } else {
            0
        }),
        s[i] ==> count(s) > 0,
    decreases s.len(),
{
    if i == s.len() - 1 {
        assert(s.update(i, v).drop_last() =~= s.drop_last());
    } else {
        count_update(s.drop_last(), i, v);
        assert(s.update(i, v).drop_last() =~= s.drop_last().update(i, v));
    }
}

/// No more bits are set than there are.
pub proof fn count_bound(s: Seq<bool>)
    ensures
        count(s) <= s.len(),
    decreases s.len(),
{
    if s.len() > 0 {
        count_bound(s.drop_last());
    }
}

/// No bit of a clear set is set.
pub proof fn count_clear(s: Seq<bool>)
    requires
        forall|i: int| 0 <= i < s.len() ==> !s[i],
    ensures
        count(s) == 0,
        positions(s) == Seq::<usize>::empty(),
    decreases s.len(),
{
    if s.len() > 0 {
        count_clear(s.drop_last());
    }
}

/// A bit that is clear leaves room for one more.
pub proof fn count_room(s: Seq<bool>, i: int)
    requires
        0 <= i < s.len(),
        !s[i],
    ensures
        count(s) < s.len(),
{
    count_update(s, i, true);
    count_bound(s.update(i, true));
}

/// Two bits that are clear leave room for two more.
pub proof fn count_room2(s: Seq<bool>, i: int, j: int)
    requires
        0 <= i < s.len(),
        0 <= j < s.len(),
        i != j,
        !s[i],
        !s[j],
    ensures
        count(s) + 1 < s.len(),
{
    count_update(s, i, true);
    count_room(s.update(i, true), j);
}

/// The positions are those of the bits that are set, within the set.
pub proof fn positions_are_set(s: Seq<bool>)
    requires
        s.len() <= usize::MAX,
    ensures
        forall|k: int|
            0 <= k < positions(s).len() ==> (#[trigger] positions(s)[k]) < s.len()
                && s[positions(s)[k] as int],
        positions(s).len() == count(s),
    decreases s.len(),
{
    if s.len() > 0 {
        let t = s.drop_last();
        positions_are_set(t);
        assert forall|k: int| 0 <= k < positions(s).len() implies (#[trigger] positions(s)[k])
            < s.len() && s[positions(s)[k] as int] by {
            if k < positions(t).len() {
                assert(positions(s)[k] == positions(t)[k]);
                assert(t[positions(t)[k] as int]);
            }
        }
    }
}

/// The positions ascend, and none of a bit that is set is missing.
pub proof fn positions_ascend(s: Seq<bool>)
    requires
        s.len() <= usize::MAX,
    ensures
        forall|k: int|
            0 <= k < positions(s).len() ==> (#[trigger] positions(s)[k]) < s.len()
                && s[positions(s)[k] as int],
        forall|i: int, j: int|
            0 <= i < j < positions(s).len() ==> (#[trigger] positions(s)[i]) < (
            #[trigger] positions(s)[j]),
        forall|i: int| 0 <= i < s.len() && #[trigger] s[i] ==> positions(s).contains(i as usize),
    decreases s.len(),
{
    if s.len() > 0 {
        let t = s.drop_last();
        positions_ascend(t);
        let p = positions(s);
        let q = positions(t);
        assert(s.last() ==> p == q.push((s.len() - 1) as usize));
        assert forall|k: int| 0 <= k < p.len() implies (#[trigger] p[k]) < s.len()
            && s[p[k] as int] by {
            if k < q.len() {
                assert(p[k] == q[k]);
                assert(t[q[k] as int]);
            }
        }
        assert forall|i: int, j: int| 0 <= i < j < p.len() implies (#[trigger] p[i]) < (
        #[trigger] p[j]) by {
            assert(p[i] == q[i]);
            if j < q.len() {
                assert(p[j] == q[j]);
            }
        }
        assert forall|i: int| 0 <= i < s.len() && #[trigger] s[i] implies p.contains(
            i as usize,
        ) by {
            if i < s.len() - 1 {
                assert(t[i]);
                let k = q.index_of(i as usize);
                assert(p[k] == i as usize);
            } else {
                assert(p[p.len() - 1] == i as usize);
            }
        }
    }
}

/// None is counted exactly where no bit is set.
pub proof fn none_is_counted(s: Seq<bool>)
    ensures
        count(s) == 0 <==> forall|i: int| 0 <= i < s.len() ==> !(#[trigger] s[i]),
{
    if forall|i: int| 0 <= i < s.len() ==> !(#[trigger] s[i]) {
        count_clear(s);
    } else {
        let i = choose|i: int| 0 <= i < s.len() && #[trigger] s[i];
        count_update(s, i, false);
    }
}

} // verus!
