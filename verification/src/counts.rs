//! Counters of safe and unsafe items, and their sums.

use vstd::prelude::*;

verus! {

/// Statistics about the use of `unsafe`.
#[derive(Clone, Copy, Debug, PartialEq, Eq, Structural)]
pub struct Count {
    /// Number of safe items
    pub safe: u64,
    /// Number of unsafe items
    pub unsafe_: u64,
}

impl Count {
    /// Whether the field-by-field sum of two counts fits in the counters.
    pub open spec fn fits_sum_with(self, rhs: Count) -> bool {
        self.safe + rhs.safe <= u64::MAX && self.unsafe_ + rhs.unsafe_ <= u64::MAX
    }

    /// The field-by-field sum of two counts.
    pub open spec fn plus(self, rhs: Count) -> Count {
        Count { safe: (self.safe + rhs.safe) as u64, unsafe_: (self.unsafe_ + rhs.unsafe_) as u64 }
    }

    /// Increments the safe or unsafe counter by 1
    pub fn count(&mut self, is_unsafe: bool)
        requires
            is_unsafe ==> old(self).unsafe_ < u64::MAX,
            !is_unsafe ==> old(self).safe < u64::MAX,
        ensures
            is_unsafe ==> final(self).unsafe_ == old(self).unsafe_ + 1 && final(self).safe == old(
                self,
            ).safe,
            !is_unsafe ==> final(self).safe == old(self).safe + 1 && final(self).unsafe_ == old(
                self,
            ).unsafe_,
    {
        if is_unsafe {
            self.unsafe_ = self.unsafe_ + 1;
        } else {
            self.safe = self.safe + 1;
        }
    }
}

impl core::default::Default for Count {
    fn default() -> (r: Count)
        ensures
            r.safe == 0 && r.unsafe_ == 0,
    {
        Count { safe: 0, unsafe_: 0 }
    }
}

impl core::ops::Add for Count {
    type Output = Count;

    fn add(self, other: Count) -> (r: Count) {
        Count { safe: self.safe + other.safe, unsafe_: self.unsafe_ + other.unsafe_ }
    }
}

impl vstd::std_specs::ops::AddSpecImpl for Count {
    open spec fn obeys_add_spec() -> bool {
        true
    }

    open spec fn add_req(self, rhs: Count) -> bool {
        self.fits_sum_with(rhs)
    }

    open spec fn add_spec(self, rhs: Count) -> Count {
        self.plus(rhs)
    }
}

impl Count {
    /// Adds `rhs` to this count, field by field: what `+=` does for a count.
    /// The operator itself is not provided, as vstd gives `AddAssign` no
    /// specification to prove it against.
    pub fn add_assign(&mut self, rhs: Count)
        requires
            old(self).fits_sum_with(rhs),
        ensures
            *final(self) == old(self).plus(rhs),
    {
        *self = *self + rhs;
    }
}

/// Unsafe usage metrics collection.
#[derive(Clone, Copy, Debug, PartialEq, Eq, Structural)]
pub struct CounterBlock {
    pub functions: Count,
    pub exprs: Count,
    pub item_impls: Count,
    pub item_traits: Count,
    pub methods: Count,
}

impl CounterBlock {
    /// The block with every counter at zero.
    pub open spec fn zero() -> CounterBlock {
        CounterBlock {
            functions: Count { safe: 0, unsafe_: 0 },
            exprs: Count { safe: 0, unsafe_: 0 },
            item_impls: Count { safe: 0, unsafe_: 0 },
            item_traits: Count { safe: 0, unsafe_: 0 },
            methods: Count { safe: 0, unsafe_: 0 },
        }
    }

    /// Whether the counter-by-counter sum of two blocks fits in the counters.
    pub open spec fn fits_sum_with(self, rhs: CounterBlock) -> bool {
        &&& self.functions.fits_sum_with(rhs.functions)
        &&& self.exprs.fits_sum_with(rhs.exprs)
        &&& self.item_impls.fits_sum_with(rhs.item_impls)
        &&& self.item_traits.fits_sum_with(rhs.item_traits)
        &&& self.methods.fits_sum_with(rhs.methods)
    }

    /// The counter-by-counter sum of two blocks.
    pub open spec fn plus(self, rhs: CounterBlock) -> CounterBlock {
        CounterBlock {
            functions: self.functions.plus(rhs.functions),
            exprs: self.exprs.plus(rhs.exprs),
            item_impls: self.item_impls.plus(rhs.item_impls),
            item_traits: self.item_traits.plus(rhs.item_traits),
            methods: self.methods.plus(rhs.methods),
        }
    }

    /// Whether any of the counters has counted an unsafe item.
    pub open spec fn spec_has_unsafe(self) -> bool {
        ||| self.functions.unsafe_ > 0
        ||| self.exprs.unsafe_ > 0
        ||| self.item_impls.unsafe_ > 0
        ||| self.item_traits.unsafe_ > 0
        ||| self.methods.unsafe_ > 0
    }

    /// Whether any of the counters has counted an unsafe item.
    pub fn has_unsafe(&self) -> (r: bool)
        ensures
            r == self.spec_has_unsafe(),
    {
        self.functions.unsafe_ > 0 || self.exprs.unsafe_ > 0 || self.item_impls.unsafe_ > 0
            || self.item_traits.unsafe_ > 0 || self.methods.unsafe_ > 0
    }

    /// Adds `rhs` to this block, counter by counter: what `+=` does for a
    /// block. The operator itself is not provided, as vstd gives `AddAssign`
    /// no specification to prove it against.
    pub fn add_assign(&mut self, rhs: CounterBlock)
        requires
            old(self).fits_sum_with(rhs),
        ensures
            *final(self) == old(self).plus(rhs),
    {
        *self = *self + rhs;
    }
}

impl core::default::Default for CounterBlock {
    fn default() -> (r: CounterBlock)
        ensures
            r == CounterBlock::zero(),
    {
        CounterBlock {
            functions: Count::default(),
            exprs: Count::default(),
            item_impls: Count::default(),
            item_traits: Count::default(),
            methods: Count::default(),
        }
    }
}

impl core::ops::Add for CounterBlock {
    type Output = CounterBlock;

    fn add(self, other: CounterBlock) -> (r: CounterBlock) {
        CounterBlock {
            functions: self.functions + other.functions,
            exprs: self.exprs + other.exprs,
            item_impls: self.item_impls + other.item_impls,
            item_traits: self.item_traits + other.item_traits,
            methods: self.methods + other.methods,
        }
    }
}

impl vstd::std_specs::ops::AddSpecImpl for CounterBlock {
    open spec fn obeys_add_spec() -> bool {
        true
    }

    open spec fn add_req(self, rhs: CounterBlock) -> bool {
        self.fits_sum_with(rhs)
    }

    open spec fn add_spec(self, rhs: CounterBlock) -> CounterBlock {
        self.plus(rhs)
    }
}

/// Adding counts does not depend on their order.
pub proof fn law_count_sum_commutative(a: Count, b: Count)
    ensures
        a.fits_sum_with(b) == b.fits_sum_with(a),
        a.plus(b) == b.plus(a),
{
}

/// Adding counts does not depend on how the sums are grouped.
pub proof fn law_count_sum_associative(a: Count, b: Count, c: Count)
    requires
        a.fits_sum_with(b),
        a.plus(b).fits_sum_with(c),
    ensures
        b.fits_sum_with(c),
        a.fits_sum_with(b.plus(c)),
        a.plus(b).plus(c) == a.plus(b.plus(c)),
{
}

/// The default count adds nothing.
pub proof fn law_count_zero_is_identity(a: Count)
    ensures
        (Count { safe: 0, unsafe_: 0 }).fits_sum_with(a),
        (Count { safe: 0, unsafe_: 0 }).plus(a) == a,
        a.plus(Count { safe: 0, unsafe_: 0 }) == a,
{
}

/// Adding blocks does not depend on their order.
pub proof fn law_block_sum_commutative(a: CounterBlock, b: CounterBlock)
    ensures
        a.fits_sum_with(b) == b.fits_sum_with(a),
        a.plus(b) == b.plus(a),
{
}

/// Adding blocks does not depend on how the sums are grouped.
pub proof fn law_block_sum_associative(a: CounterBlock, b: CounterBlock, c: CounterBlock)
    requires
        a.fits_sum_with(b),
        a.plus(b).fits_sum_with(c),
    ensures
        b.fits_sum_with(c),
        a.fits_sum_with(b.plus(c)),
        a.plus(b).plus(c) == a.plus(b.plus(c)),
{
}

/// The default block adds nothing, and has no unsafe item.
pub proof fn law_block_zero_is_identity(a: CounterBlock)
    ensures
        CounterBlock::zero().fits_sum_with(a),
        CounterBlock::zero().plus(a) == a,
        a.plus(CounterBlock::zero()) == a,
        !CounterBlock::zero().spec_has_unsafe(),
{
}

/// A sum of blocks has unsafe items exactly when one of the blocks has.
pub proof fn law_has_unsafe_of_sum(a: CounterBlock, b: CounterBlock)
    requires
        a.fits_sum_with(b),
    ensures
        a.plus(b).spec_has_unsafe() == (a.spec_has_unsafe() || b.spec_has_unsafe()),
{
}

/// The sum of two counts adds them counter by counter: its safe count is
/// the two safe counts added, its unsafe count the two unsafe counts added.
pub proof fn law_count_sum_adds_each_counter(a: Count, b: Count)
    requires
        a.fits_sum_with(b),
    ensures
        a.plus(b).safe == a.safe + b.safe,
        a.plus(b).unsafe_ == a.unsafe_ + b.unsafe_,
{
}

/// The sum of two blocks adds them counter by counter: each of the five
/// counters of the sum, safe and unsafe, is that counter of the first block
/// added to that counter of the second.
pub proof fn law_block_sum_adds_each_counter(a: CounterBlock, b: CounterBlock)
    requires
        a.fits_sum_with(b),
    ensures
        a.plus(b).functions.safe == a.functions.safe + b.functions.safe,
        a.plus(b).functions.unsafe_ == a.functions.unsafe_ + b.functions.unsafe_,
        a.plus(b).exprs.safe == a.exprs.safe + b.exprs.safe,
        a.plus(b).exprs.unsafe_ == a.exprs.unsafe_ + b.exprs.unsafe_,
        a.plus(b).item_impls.safe == a.item_impls.safe + b.item_impls.safe,
        a.plus(b).item_impls.unsafe_ == a.item_impls.unsafe_ + b.item_impls.unsafe_,
        a.plus(b).item_traits.safe == a.item_traits.safe + b.item_traits.safe,
        a.plus(b).item_traits.unsafe_ == a.item_traits.unsafe_ + b.item_traits.unsafe_,
        a.plus(b).methods.safe == a.methods.safe + b.methods.safe,
        a.plus(b).methods.unsafe_ == a.methods.unsafe_ + b.methods.unsafe_,
{
}

/// A block has unsafe usage exactly when one of its five counters has
/// counted an unsafe item: an unsafe item counted by any counter, functions,
/// expressions, impls, traits or methods, makes the block unsafe, and a block
/// none of whose counters has counted one is not.
pub proof fn law_has_unsafe_when_any_counter_is_unsafe(b: CounterBlock)
    ensures
        b.functions.unsafe_ > 0 ==> b.spec_has_unsafe(),
        b.exprs.unsafe_ > 0 ==> b.spec_has_unsafe(),
        b.item_impls.unsafe_ > 0 ==> b.spec_has_unsafe(),
        b.item_traits.unsafe_ > 0 ==> b.spec_has_unsafe(),
        b.methods.unsafe_ > 0 ==> b.spec_has_unsafe(),
        (b.functions.unsafe_ == 0 && b.exprs.unsafe_ == 0 && b.item_impls.unsafe_ == 0
            && b.item_traits.unsafe_ == 0 && b.methods.unsafe_ == 0) ==> !b.spec_has_unsafe(),
{
}

} // verus!
