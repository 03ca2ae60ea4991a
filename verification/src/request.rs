//! What was asked for, held against what was assigned.
//!
//! The amounts of an issue or of a transfer are blinded outside this
//! library. What comes back is accepted only where it is what was asked
//! for: the same amounts on the same seals, each as often as it was asked
//! for, whatever their order and their blinding factors.

use crate::amount::{total, HasAmount};
use crate::contract::{Allocation, CloseMethod, Seal};
use crate::create::OutpointValue;
use crate::transfer::{Beneficiary, Change};
use vstd::prelude::*;

verus! {

/// Where an amount goes: a seal without its blinding factor.
pub enum Place {
    /// The commitment to a transaction output.
    Concealed(Seq<u8>),
    /// A transaction output, given openly.
    Open { method: CloseMethod, txid: Option<Seq<u8>>, vout: u32 },
}

/// An amount and the place that it goes to.
pub struct Asked {
    pub place: Place,
    pub value: u64,
}

/// The bytes of an optional transaction identifier.
pub open spec fn txid_bytes(txid: Option<[u8; 32]>) -> Option<Seq<u8>> {
    match txid {
        Some(t) => Some(t@),
        None => None,
    }
}

/// What an allocation grants: its amount and its seal, without the
/// blinding factors.
pub open spec fn granted_by(a: Allocation) -> Asked {
    Asked {
        place: match a.seal {
            Seal::Concealed(seal) => Place::Concealed(seal@),
            Seal::Revealed { method, txid, vout, blinding } => Place::Open {
                method,
                txid: txid_bytes(txid),
                vout,
            },
        },
        value: a.state.value,
    }
}

/// Whether two strings of 32 bytes are the same.
pub fn same_bytes(a: &[u8; 32], b: &[u8; 32]) -> (r: bool)
    ensures
        r == (a@ == b@),
{
    let mut i: usize = 0;
    while i < 32
        invariant
            i <= 32,
            forall|j: int| 0 <= j < i ==> a@[j] == b@[j],
        decreases 32 - i,
    {
        if a[i] != b[i] {
            return false;
        }
        i = i + 1;
    }
    assert(a@ =~= b@);
    true
}

/// Whether two optional transaction identifiers are the same.
pub fn same_txid(a: &Option<[u8; 32]>, b: &Option<[u8; 32]>) -> (r: bool)
    ensures
        r == (txid_bytes(*a) == txid_bytes(*b)),
{
    match (a, b) {
        (Some(x), Some(y)) => same_bytes(x, y),
        (None, None) => true,
        _ => false,
    }
}

/// Whether two allocations grant the same amount on the same seal.
pub fn same_grant(a: &Allocation, b: &Allocation) -> (r: bool)
    ensures
        r == (granted_by(*a) == granted_by(*b)),
{
    if a.state.value != b.state.value {
        return false;
    }
    match (&a.seal, &b.seal) {
        (Seal::Concealed(x), Seal::Concealed(y)) => same_bytes(x, y),
        (
            Seal::Revealed { method: m, txid: t, vout: v, blinding: _ },
            Seal::Revealed { method: n, txid: u, vout: w, blinding: _ },
        ) => *m == *n && same_txid(t, u) && *v == *w,
        _ => false,
    }
}

/// A request for an amount on a seal.
pub trait Request {
    /// What is asked for.
    spec fn asks(&self) -> Asked;

    /// Whether the allocation grants what is asked for.
    fn is_met_by(&self, a: &Allocation) -> (r: bool)
        ensures
            r == (self.asks() == granted_by(*a)),
    ;
}

impl Request for Beneficiary {
    open spec fn asks(&self) -> Asked {
        Asked { place: Place::Concealed(self.seal@), value: self.value }
    }

    fn is_met_by(&self, a: &Allocation) -> (r: bool) {
        match &a.seal {
            Seal::Concealed(seal) => a.state.value == self.value && same_bytes(seal, &self.seal),
            Seal::Revealed { .. } => false,
        }
    }
}

impl Request for Change {
    open spec fn asks(&self) -> Asked {
        Asked {
            place: Place::Open { method: self.method, txid: txid_bytes(self.txid), vout: self.vout },
            value: self.value,
        }
    }

    fn is_met_by(&self, a: &Allocation) -> (r: bool) {
        match &a.seal {
            Seal::Revealed { method, txid, vout, blinding } => a.state.value == self.value
                && *method == self.method && same_txid(txid, &self.txid) && *vout == self.vout,
            Seal::Concealed(_) => false,
        }
    }
}

impl Request for OutpointValue {
    open spec fn asks(&self) -> Asked {
        Asked {
            place: Place::Open {
                method: CloseMethod::TapretFirst,
                txid: Some(self.outpoint.txid@),
                vout: self.outpoint.vout,
            },
            value: self.value,
        }
    }

    fn is_met_by(&self, a: &Allocation) -> (r: bool) {
        match &a.seal {
            Seal::Revealed { method, txid, vout, blinding } => a.state.value == self.value
                && *method == CloseMethod::TapretFirst && same_txid(txid, &Some(self.outpoint.txid))
                && *vout == self.outpoint.vout,
            Seal::Concealed(_) => false,
        }
    }
}

/// What the requests ask for, in their order.
pub open spec fn asked<R: Request>(requests: Seq<R>) -> Seq<Asked> {
    requests.map_values(|r: R| r.asks())
}

/// What the allocations grant, in their order.
pub open spec fn granted(allocations: Seq<Allocation>) -> Seq<Asked> {
    allocations.map_values(|a: Allocation| granted_by(a))
}

/// Whether no two of the amounts go to the same place.
pub open spec fn on_distinct_seals(s: Seq<Asked>) -> bool {
    s.map_values(|a: Asked| a.place).no_duplicates()
}

/// The allocations are what the issue asked for: the amounts asked for on
/// the seals asked for, each as often as it was asked for.
pub open spec fn serves_issue(allocations: Seq<Allocation>, issued: Seq<OutpointValue>) -> bool {
    granted(allocations).to_multiset() == asked(issued).to_multiset()
}

/// The allocations are what the transfer asked for: the payments and the
/// change, each as often as it was asked for.
pub open spec fn serves_transfer(
    allocations: Seq<Allocation>,
    beneficiaries: Seq<Beneficiary>,
    change: Seq<Change>,
) -> bool {
    granted(allocations).to_multiset() == (asked(beneficiaries) + asked(change)).to_multiset()
}

/// How often `k` occurs in `s`.
pub open spec fn times(s: Seq<Asked>, k: Asked) -> nat
    decreases s.len(),
{
    if s.len() == 0 {
        0
    } else {
        times(s.drop_last(), k) + if s.last() == k {
            1nat
        } else {
            0nat
        }
    }
}

/// The sum of the amounts of `s`.
pub open spec fn worth(s: Seq<Asked>) -> nat
    decreases s.len(),
{
    if s.len() == 0 {
        0
    } else {
        worth(s.drop_last()) + s.last().value as nat
    }
}

/// The multiset of a sequence holds each item as often as it occurs.
pub proof fn lemma_times_is_count(s: Seq<Asked>, k: Asked)
    ensures
        s.to_multiset().count(k) == times(s, k),
    decreases s.len(),
{
    if s.len() == 0 {
        s.to_multiset_ensures();
        assert(s.to_multiset().len() == 0);
        vstd::multiset::lemma_multiset_empty_len(s.to_multiset());
    } else {
        let front = s.drop_last();
        lemma_times_is_count(front, k);
        front.to_multiset_ensures();
        assert(front.push(s.last()) =~= s);
        assert(s.to_multiset() == front.to_multiset().insert(s.last()));
        vstd::multiset::lemma_insert_increases_count_by_1(front.to_multiset(), s.last());
        if s.last() != k {
            vstd::multiset::lemma_insert_other_elements_unchanged(front.to_multiset(), s.last(), k);
        }
    }
}

/// What occurs in a sequence sits at some position of it.
pub proof fn lemma_times_position(s: Seq<Asked>, k: Asked)
    ensures
        times(s, k) > 0 <==> exists|i: int| 0 <= i < s.len() && s[i] == k,
    decreases s.len(),
{
    if s.len() > 0 {
        lemma_times_position(s.drop_last(), k);
        if times(s.drop_last(), k) > 0 {
            let i = choose|i: int| 0 <= i < s.drop_last().len() && s.drop_last()[i] == k;
            assert(s[i] == k);
        }
        if exists|i: int| 0 <= i < s.len() && s[i] == k {
            let i = choose|i: int| 0 <= i < s.len() && s[i] == k;
            if i < s.len() - 1 {
                assert(s.drop_last()[i] == k);
            }
        }
    }
}

/// Counting in two sequences joined is counting in each.
pub proof fn lemma_times_join(a: Seq<Asked>, b: Seq<Asked>, k: Asked)
    ensures
        times(a + b, k) == times(a, k) + times(b, k),
    decreases b.len(),
{
    if b.len() == 0 {
        assert(a + b =~= a);
    } else {
        lemma_times_join(a, b.drop_last(), k);
        assert((a + b).drop_last() =~= a + b.drop_last());
    }
}

/// The amounts of two sequences joined are those of each.
pub proof fn lemma_worth_join(a: Seq<Asked>, b: Seq<Asked>)
    ensures
        worth(a + b) == worth(a) + worth(b),
    decreases b.len(),
{
    if b.len() == 0 {
        assert(a + b =~= a);
    } else {
        lemma_worth_join(a, b.drop_last());
        assert((a + b).drop_last() =~= a + b.drop_last());
    }
}

/// To take one item out lowers the sum by its amount.
pub proof fn lemma_worth_remove(s: Seq<Asked>, at: int)
    requires
        0 <= at < s.len(),
    ensures
        worth(s) == worth(s.remove(at)) + s[at].value,
{
    let head = s.subrange(0, at);
    let tail = s.subrange(at + 1, s.len() as int);
    assert(s =~= (head + seq![s[at]]) + tail);
    assert(s.remove(at) =~= head + tail);
    lemma_worth_join(head + seq![s[at]], tail);
    lemma_worth_join(head, seq![s[at]]);
    lemma_worth_join(head, tail);
    let one = seq![s[at]];
    assert(one.drop_last() =~= Seq::<Asked>::empty());
    assert(worth(one.drop_last()) == 0);
    assert(one.last() == s[at]);
    assert(worth(one) == s[at].value);
}

/// Two sequences that hold the same items equally often hold the same sum
/// of amounts.
pub proof fn lemma_worth_of_multiset(a: Seq<Asked>, b: Seq<Asked>)
    requires
        a.to_multiset() == b.to_multiset(),
    ensures
        worth(a) == worth(b),
        a.len() == b.len(),
    decreases a.len(),
{
    a.to_multiset_ensures();
    b.to_multiset_ensures();
    if a.len() > 0 {
        let x = a.last();
        assert(a.contains(x));
        assert(b.to_multiset().count(x) > 0);
        assert(b.contains(x));
        let j = choose|j: int| 0 <= j < b.len() && b[j] == x;
        assert(a.remove(a.len() - 1) =~= a.drop_last());
        assert(a.drop_last().to_multiset() == b.remove(j).to_multiset());
        lemma_worth_of_multiset(a.drop_last(), b.remove(j));
        lemma_worth_remove(b, j);
    } else {
        assert(worth(a) == 0);
        if b.len() > 0 {
            assert(false);
        }
    }
}

/// What allocations add up to is the sum of what they grant.
pub proof fn lemma_worth_granted(allocations: Seq<Allocation>)
    ensures
        worth(granted(allocations)) == total(allocations),
    decreases allocations.len(),
{
    if allocations.len() > 0 {
        lemma_worth_granted(allocations.drop_last());
        assert(granted(allocations).drop_last() =~= granted(allocations.drop_last()));
    }
}

/// What requests add up to is the sum of what they ask for.
pub proof fn lemma_worth_asked<R: Request + HasAmount>(requests: Seq<R>)
    requires
        forall|i: int|
            0 <= i < requests.len() ==> (#[trigger] requests[i]).asks().value
                == requests[i].spec_amount(),
    ensures
        worth(asked(requests)) == total(requests),
    decreases requests.len(),
{
    if requests.len() > 0 {
        lemma_worth_asked(requests.drop_last());
        assert(asked(requests).drop_last() =~= asked(requests.drop_last()));
    }
}

/// Allocations that are what an issue asked for are as many as the
/// requests and add up to the same amount.
pub proof fn law_served_issue_balances(allocations: Seq<Allocation>, issued: Seq<OutpointValue>)
    requires
        serves_issue(allocations, issued),
    ensures
        allocations.len() == issued.len(),
        total(allocations) == total(issued),
{
    lemma_worth_of_multiset(granted(allocations), asked(issued));
    lemma_worth_granted(allocations);
    lemma_worth_asked(issued);
}

/// Allocations that are what a transfer asked for are as many as the
/// payments and the change together and add up to the same amount.
pub proof fn law_served_transfer_balances(
    allocations: Seq<Allocation>,
    beneficiaries: Seq<Beneficiary>,
    change: Seq<Change>,
)
    requires
        serves_transfer(allocations, beneficiaries, change),
    ensures
        allocations.len() == beneficiaries.len() + change.len(),
        total(allocations) == total(beneficiaries) + total(change),
{
    lemma_worth_of_multiset(granted(allocations), asked(beneficiaries) + asked(change));
    lemma_worth_granted(allocations);
    lemma_worth_asked(beneficiaries);
    lemma_worth_asked(change);
    lemma_worth_join(asked(beneficiaries), asked(change));
}

/// Whether each item of `a` occurs in `b` as often as in `a`.
pub open spec fn counts_agree(a: Seq<Asked>, b: Seq<Asked>) -> bool {
    forall|i: int| 0 <= i < a.len() ==> times(a, #[trigger] a[i]) == times(b, a[i])
}

/// Whether each item of `b` occurs in `a`.
pub open spec fn covered(b: Seq<Asked>, a: Seq<Asked>) -> bool {
    forall|j: int| 0 <= j < b.len() ==> times(a, #[trigger] b[j]) > 0
}

/// Two sequences hold the same items equally often exactly when each item
/// of the first occurs as often in the second and each item of the second
/// occurs in the first.
pub proof fn lemma_same_multiset(a: Seq<Asked>, b: Seq<Asked>)
    ensures
        a.to_multiset() == b.to_multiset() <==> counts_agree(a, b) && covered(b, a),
{
    if a.to_multiset() == b.to_multiset() {
        assert forall|i: int| 0 <= i < a.len() implies times(a, #[trigger] a[i]) == times(
            b,
            a[i],
        ) by {
            lemma_times_is_count(a, a[i]);
            lemma_times_is_count(b, a[i]);
        }
        assert forall|j: int| 0 <= j < b.len() implies times(a, #[trigger] b[j]) > 0 by {
            lemma_times_is_count(a, b[j]);
            lemma_times_is_count(b, b[j]);
            lemma_times_position(b, b[j]);
        }
    }
    if counts_agree(a, b) && covered(b, a) {
        assert forall|k: Asked| a.to_multiset().count(k) == b.to_multiset().count(k) by {
            lemma_times_is_count(a, k);
            lemma_times_is_count(b, k);
            lemma_times_position(a, k);
            lemma_times_position(b, k);
            if times(a, k) > 0 {
                let i = choose|i: int| 0 <= i < a.len() && a[i] == k;
                assert(times(a, a[i]) == times(b, a[i]));
            } else if times(b, k) > 0 {
                let j = choose|j: int| 0 <= j < b.len() && b[j] == k;
                assert(times(a, b[j]) > 0);
            }
        }
        assert(a.to_multiset() =~= b.to_multiset());
    }
}

/// How many of the allocations grant what `x` grants.
pub fn count_granted(allocations: &Vec<Allocation>, x: &Allocation) -> (r: usize)
    ensures
        r == times(granted(allocations@), granted_by(*x)),
        r <= allocations@.len(),
{
    let mut n: usize = 0;
    let mut i: usize = 0;
    while i < allocations.len()
        invariant
            i <= allocations@.len(),
            n <= i,
            n == times(granted(allocations@.subrange(0, i as int)), granted_by(*x)),
        decreases allocations@.len() - i,
    {
        proof {
            let next = granted(allocations@.subrange(0, i + 1));
            assert(next.drop_last() =~= granted(allocations@.subrange(0, i as int)));
            assert(next.last() == granted_by(allocations@[i as int]));
        }
        if same_grant(&allocations[i], x) {
            n = n + 1;
        }
        i = i + 1;
    }
    assert(allocations@.subrange(0, i as int) =~= allocations@);
    n
}

/// How many of the requests ask for what `x` grants.
pub fn count_asked<R: Request>(requests: &Vec<R>, x: &Allocation) -> (r: usize)
    ensures
        r == times(asked(requests@), granted_by(*x)),
        r <= requests@.len(),
{
    let mut n: usize = 0;
    let mut i: usize = 0;
    while i < requests.len()
        invariant
            i <= requests@.len(),
            n <= i,
            n == times(asked(requests@.subrange(0, i as int)), granted_by(*x)),
        decreases requests@.len() - i,
    {
        proof {
            let next = asked(requests@.subrange(0, i + 1));
            assert(next.drop_last() =~= asked(requests@.subrange(0, i as int)));
            assert(next.last() == requests@[i as int].asks());
        }
        if requests[i].is_met_by(x) {
            n = n + 1;
        }
        i = i + 1;
    }
    assert(requests@.subrange(0, i as int) =~= requests@);
    n
}

/// Whether each request is granted by one of the allocations.
pub fn all_granted<R: Request>(requests: &Vec<R>, allocations: &Vec<Allocation>) -> (r: bool)
    ensures
        r == covered(asked(requests@), granted(allocations@)),
{
    let ghost a = granted(allocations@);
    let ghost b = asked(requests@);
    let mut j: usize = 0;
    while j < requests.len()
        invariant
            j <= requests@.len(),
            a == granted(allocations@),
            b == asked(requests@),
            forall|m: int| 0 <= m < j ==> times(a, #[trigger] b[m]) > 0,
        decreases requests@.len() - j,
    {
        let mut found = false;
        let mut k: usize = 0;
        while k < allocations.len() && !found
            invariant
                k <= allocations@.len(),
                j < requests@.len(),
                a == granted(allocations@),
                b == asked(requests@),
                found ==> exists|m: int| 0 <= m < a.len() && a[m] == b[j as int],
                !found ==> forall|m: int| 0 <= m < k ==> a[m] != b[j as int],
            decreases allocations@.len() - k,
        {
            assert(a[k as int] == granted_by(allocations@[k as int]));
            assert(b[j as int] == requests@[j as int].asks());
            if requests[j].is_met_by(&allocations[k]) {
                found = true;
            }
            k = k + 1;
        }
        proof {
            lemma_times_position(a, b[j as int]);
        }
        if !found {
            return false;
        }
        j = j + 1;
    }
    true
}

/// Decides [`serves_issue`].
pub fn does_serve_issue(allocations: &Vec<Allocation>, issued: &Vec<OutpointValue>) -> (r: bool)
    ensures
        r == serves_issue(allocations@, issued@),
{
    let ghost a = granted(allocations@);
    let ghost b = asked(issued@);
    proof {
        lemma_same_multiset(a, b);
    }
    let mut i: usize = 0;
    while i < allocations.len()
        invariant
            i <= allocations@.len(),
            a == granted(allocations@),
            b == asked(issued@),
            a.to_multiset() == b.to_multiset() <==> counts_agree(a, b) && covered(b, a),
            forall|m: int| 0 <= m < i ==> times(a, #[trigger] a[m]) == times(b, a[m]),
        decreases allocations@.len() - i,
    {
        assert(a[i as int] == granted_by(allocations@[i as int]));
        if count_granted(allocations, &allocations[i]) != count_asked(issued, &allocations[i]) {
            return false;
        }
        i = i + 1;
    }
    all_granted(issued, allocations)
}

/// Decides [`serves_transfer`].
pub fn does_serve_transfer(
    allocations: &Vec<Allocation>,
    beneficiaries: &Vec<Beneficiary>,
    change: &Vec<Change>,
) -> (r: bool)
    requires
        beneficiaries@.len() + change@.len() <= usize::MAX,
    ensures
        r == serves_transfer(allocations@, beneficiaries@, change@),
{
    let ghost a = granted(allocations@);
    let ghost b = asked(beneficiaries@) + asked(change@);
    proof {
        lemma_same_multiset(a, b);
        assert forall|k: Asked|
            times(b, k) == times(asked(beneficiaries@), k) + times(asked(change@), k) by {
            lemma_times_join(asked(beneficiaries@), asked(change@), k);
        }
    }
    let mut i: usize = 0;
    while i < allocations.len()
        invariant
            i <= allocations@.len(),
            beneficiaries@.len() + change@.len() <= usize::MAX,
            a == granted(allocations@),
            b == asked(beneficiaries@) + asked(change@),
            a.to_multiset() == b.to_multiset() <==> counts_agree(a, b) && covered(b, a),
            forall|k: Asked|
                times(b, k) == times(asked(beneficiaries@), k) + times(asked(change@), k),
            forall|m: int| 0 <= m < i ==> times(a, #[trigger] a[m]) == times(b, a[m]),
        decreases allocations@.len() - i,
    {
        assert(a[i as int] == granted_by(allocations@[i as int]));
        let paid = count_asked(beneficiaries, &allocations[i]);
        let kept = count_asked(change, &allocations[i]);
        if count_granted(allocations, &allocations[i]) != paid + kept {
            return false;
        }
        i = i + 1;
    }
    let paid = all_granted(beneficiaries, allocations);
    let kept = all_granted(change, allocations);
    proof {
        let p = asked(beneficiaries@);
        let c = asked(change@);
        if paid && kept {
            assert forall|j: int| 0 <= j < b.len() implies times(a, #[trigger] b[j]) > 0 by {
                if j < p.len() {
                    assert(b[j] == p[j]);
                } else {
                    assert(b[j] == c[j - p.len()]);
                }
            }
        }
        if covered(b, a) {
            assert forall|j: int| 0 <= j < p.len() implies times(a, #[trigger] p[j]) > 0 by {
                assert(b[j] == p[j]);
            }
            assert forall|j: int| 0 <= j < c.len() implies times(a, #[trigger] c[j]) > 0 by {
                assert(b[j + p.len()] == c[j]);
            }
        }
    }
    paid && kept
}

} // verus!
