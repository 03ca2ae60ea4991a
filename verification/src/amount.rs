//! Sums of asset amounts.

use crate::contract::Allocation;
use vstd::prelude::*;

verus! {

/// What carries an amount of the asset.
pub trait HasAmount {
    /// The amount carried.
    spec fn spec_amount(&self) -> u64;

    /// The amount carried.
    fn amount(&self) -> (r: u64)
        ensures
            r == self.spec_amount(),
    ;
}

impl HasAmount for u64 {
    open spec fn spec_amount(&self) -> u64 {
        *self
    }

    fn amount(&self) -> (r: u64) {
        *self
    }
}

impl HasAmount for Allocation {
    open spec fn spec_amount(&self) -> u64 {
        self.state.value
    }

    fn amount(&self) -> (r: u64) {
        self.state.value
    }
}

/// The sum of the amounts that the items carry.
pub open spec fn total<T: HasAmount>(items: Seq<T>) -> nat
    decreases items.len(),
{
    if items.len() == 0 {
        0
    } else {
        total(items.drop_last()) + items.last().spec_amount() as nat
    }
}

/// One more item adds its amount to the sum.
pub proof fn lemma_total_push<T: HasAmount>(items: Seq<T>, item: T)
    ensures
        total(items.push(item)) == total(items) + item.spec_amount(),
{
    assert(items.push(item).drop_last() =~= items);
}

/// The sum of a sequence is the sum of its two parts.
pub proof fn lemma_total_split<T: HasAmount>(items: Seq<T>, at: int)
    requires
        0 <= at <= items.len(),
    ensures
        total(items) == total(items.subrange(0, at)) + total(items.subrange(at, items.len() as int)),
    decreases items.len() - at,
{
    let tail = items.subrange(at, items.len() as int);
    if at == items.len() {
        assert(items.subrange(0, at) =~= items);
    } else {
        lemma_total_split(items.drop_last(), at);
        assert(items.drop_last().subrange(0, at) =~= items.subrange(0, at));
        assert(items.drop_last().subrange(at, items.len() - 1) =~= tail.drop_last());
        assert(tail.last() == items.last());
    }
}

/// The sum of one item is its amount.
pub proof fn lemma_total_one<T: HasAmount>(items: Seq<T>)
    requires
        items.len() == 1,
    ensures
        total(items) == items[0].spec_amount(),
{
    assert(items.drop_last().len() == 0);
    assert(total(items.drop_last()) == 0);
    assert(items.last() == items[0]);
}

/// To replace one item changes the sum by the difference of the amounts.
pub proof fn lemma_total_update<T: HasAmount>(items: Seq<T>, at: int, item: T)
    requires
        0 <= at < items.len(),
    ensures
        total(items.update(at, item)) == total(items) - items[at].spec_amount()
            + item.spec_amount(),
{
    let changed = items.update(at, item);
    let n = items.len() as int;
    lemma_total_split(items, at);
    lemma_total_split(changed, at);
    lemma_total_split(items.subrange(at, n), 1);
    lemma_total_split(changed.subrange(at, n), 1);
    assert(changed.subrange(0, at) =~= items.subrange(0, at));
    assert(changed.subrange(at, n).subrange(1, n - at) =~= items.subrange(at, n).subrange(
        1,
        n - at,
    ));
    lemma_total_one(items.subrange(at, n).subrange(0, 1));
    lemma_total_one(changed.subrange(at, n).subrange(0, 1));
}

/// Adds up the amounts of the items: the sum where it fits in 64 bits,
/// `None` where it does not.
pub fn checked_total<T: HasAmount>(items: &Vec<T>) -> (r: Option<u64>)
    ensures
        r is Some <==> total(items@) <= u64::MAX,
        r matches Some(t) ==> t == total(items@),
{
    let mut sum: u128 = 0;
    let mut i: usize = 0;
    while i < items.len()
        invariant
            i <= items@.len(),
            sum == total(items@.subrange(0, i as int)),
            sum <= i * 0xffff_ffff_ffff_ffff,
        decreases items@.len() - i,
    {
        let amount = items[i].amount();
        proof {
            lemma_total_push(items@.subrange(0, i as int), items@[i as int]);
            assert(items@.subrange(0, i as int).push(items@[i as int]) =~= items@.subrange(
                0,
                i + 1,
            ));
            assert(i * 0xffff_ffff_ffff_ffff + 0xffff_ffff_ffff_ffff == (i + 1)
                * 0xffff_ffff_ffff_ffff) by (nonlinear_arith);
            assert((i + 1) * 0xffff_ffff_ffff_ffff <= 0xffff_ffff_ffff_ffff
                * 0xffff_ffff_ffff_ffff) by (nonlinear_arith)
                requires
                    i + 1 <= 0xffff_ffff_ffff_ffff,
            ;
        }
        sum = sum + amount as u128;
        i = i + 1;
    }
    assert(items@.subrange(0, i as int) =~= items@);
    if sum <= 0xffff_ffff_ffff_ffff {
        Some(sum as u64)
    } else {
        None
    }
}

} // verus!
