//! How the panels share the screen: the constraints a flexible layout
//! hands to the terminal library, fixed items by their size and flexible
//! ones by their share of the total weight.  Solving the constraints and
//! drawing are the caller's part.
use vstd::prelude::*;

verus! {

/// Along which axis items are laid out.
#[derive(Debug, Clone, Copy, PartialEq, Eq, Structural)]
pub enum FlexDirection {
    Horizontal,
    Vertical,
}

/// An item of a flexible layout, by how it takes room.
#[derive(Debug, Clone, Copy, PartialEq, Eq, Structural)]
pub enum FlexItemSpec {
    Flex { weight: u16 },
    Fixed { size: u16 },
}

/// A constraint on one item's extent.
#[derive(Debug, Clone, Copy, PartialEq, Eq, Structural)]
pub enum LayoutConstraint {
    Length(u16),
    Ratio(u32, u32),
    Min(u16),
}

/// The total weight of the flexible items.
pub open spec fn flex_weight(items: Seq<FlexItemSpec>) -> nat
    decreases items.len(),
{
    if items.len() == 0 {
        0
    } else {
        flex_weight(items.drop_last()) + match items.last() {
            FlexItemSpec::Flex { weight } => weight as nat,
            FlexItemSpec::Fixed { .. } => 0,
        }
    }
}

/// The total size of the fixed items.
pub open spec fn fixed_size(items: Seq<FlexItemSpec>) -> nat
    decreases items.len(),
{
    if items.len() == 0 {
        0
    } else {
        fixed_size(items.drop_last()) + match items.last() {
            FlexItemSpec::Fixed { size } => size as nat,
            FlexItemSpec::Flex { .. } => 0,
        }
    }
}

/// The constraint of an item when the weights add up to `total`.
pub open spec fn constraint_of(item: FlexItemSpec, total: nat) -> LayoutConstraint {
    match item {
        FlexItemSpec::Fixed { size } => LayoutConstraint::Length(size),
        FlexItemSpec::Flex { weight } => if total == 0 {
            LayoutConstraint::Min(0)
        } else {
            LayoutConstraint::Ratio(weight as u32, total as u32)
        },
    }
}

proof fn lemma_prefix_sums(items: Seq<FlexItemSpec>, k: int)
    requires
        0 <= k <= items.len(),
    ensures
        flex_weight(items.take(k)) <= flex_weight(items),
        fixed_size(items.take(k)) <= fixed_size(items),
    decreases items.len() - k,
{
    if k < items.len() {
        lemma_prefix_sums(items, k + 1);
        assert(items.take(k + 1).drop_last() =~= items.take(k));
    } else {
        assert(items.take(k) =~= items);
    }
}

/// The constraints of the items, in order (see [`constraint_of`]).  Both
/// totals are added up in 16 bits, as the layout does.
pub fn flex_constraints(items: &[FlexItemSpec]) -> (r: Vec<LayoutConstraint>)
    requires
        flex_weight(items@) <= u16::MAX,
        fixed_size(items@) <= u16::MAX,
    ensures
        r@.len() == items@.len(),
        forall|i: int| 0 <= i < items@.len() ==> #[trigger] r@[i] == constraint_of(items@[i], flex_weight(items@)),
{
    let mut flex_total: u16 = 0;
    let mut fixed_total: u16 = 0;
    let mut i: usize = 0;
    assert(items@.take(0) =~= Seq::<FlexItemSpec>::empty());
    while i < items.len()
        invariant
            i <= items@.len(),
            flex_weight(items@) <= u16::MAX,
            fixed_size(items@) <= u16::MAX,
            flex_total == flex_weight(items@.take(i as int)),
            fixed_total == fixed_size(items@.take(i as int)),
        decreases items@.len() - i,
    {
        assert(items@.take(i + 1).drop_last() =~= items@.take(i as int));
        proof {
            lemma_prefix_sums(items@, i + 1);
        }
        match items[i] {
            FlexItemSpec::Flex { weight } => {
                flex_total = flex_total + weight;
            },
            FlexItemSpec::Fixed { size } => {
                fixed_total = fixed_total + size;
            },
        }
        i += 1;
    }
    assert(items@.take(items@.len() as int) =~= items@);
    let mut out: Vec<LayoutConstraint> = Vec::new();
    let mut k: usize = 0;
    while k < items.len()
        invariant
            k <= items@.len(),
            flex_total == flex_weight(items@),
            out@.len() == k,
            forall|j: int| 0 <= j < k ==> #[trigger] out@[j] == constraint_of(items@[j], flex_weight(items@)),
        decreases items@.len() - k,
    {
        let c = match items[k] {
            FlexItemSpec::Fixed { size } => LayoutConstraint::Length(size),
            FlexItemSpec::Flex { weight } => if flex_total == 0 {
                LayoutConstraint::Min(0)
            } else {
                LayoutConstraint::Ratio(weight as u32, flex_total as u32)
            },
        };
        out.push(c);
        k += 1;
    }
    out
}

} // verus!
