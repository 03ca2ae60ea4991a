//! Reading byte forms back: the parsers that undo the encodings, one item
//! at a time, and the proof that each of them does.

use crate::encoding::{enc_len, enc_u16};
use vstd::prelude::*;

verus! {

/// What is left of `b` after its first `n` bytes.
pub open spec fn after(b: Seq<u8>, n: int) -> Seq<u8> {
    b.subrange(n, b.len() as int)
}

/// Reads a 16-bit integer off the front of `b`.
pub open spec fn parse_u16(b: Seq<u8>) -> Option<(u16, int)> {
    if b.len() >= 2 {
        Some(((b[0] as int + 256 * (b[1] as int)) as u16, 2))
    } else {
        None
    }
}

/// The parser of 16-bit integers undoes their encoding.
pub proof fn lemma_u16_parse_enc(v: u16, rest: Seq<u8>)
    ensures
        parse_u16(enc_u16(v) + rest) == Some((v, 2int)),
        enc_u16(v).len() == 2,
{
    let b = enc_u16(v) + rest;
    assert(b[0] == (v % 256) as u8);
    assert(b[1] == (v / 256) as u8);
}

/// What the parser of 16-bit integers reads is the encoding of its result.
pub proof fn lemma_u16_enc_parse(b: Seq<u8>)
    requires
        parse_u16(b) is Some,
    ensures
        enc_u16(parse_u16(b).unwrap().0) == b.subrange(0, 2),
        parse_u16(b).unwrap().1 == 2,
        b.len() >= 2,
{
    let v = parse_u16(b).unwrap().0;
    assert(enc_u16(v) =~= b.subrange(0, 2));
}

/// Reads a 16-bit integer at the position `pos` of `input`.
pub fn read_u16(input: &Vec<u8>, pos: usize) -> (r: Option<(u16, usize)>)
    requires
        pos <= input@.len(),
    ensures
        match r {
            Some((v, next)) => next == pos + 2 && next <= input@.len() && parse_u16(
                after(input@, pos as int),
            ) == Some((v, 2int)),
            None => parse_u16(after(input@, pos as int)) is None,
        },
{
    if input.len() - pos < 2 {
        return None;
    }
    let lo = input[pos];
    let hi = input[pos + 1];
    assert(after(input@, pos as int)[0] == lo);
    assert(after(input@, pos as int)[1] == hi);
    Some((lo as u16 + 256 * (hi as u16), pos + 2))
}

/// Reads one byte at the position `pos` of `input`.
pub fn read_u8(input: &Vec<u8>, pos: usize) -> (r: Option<(u8, usize)>)
    requires
        pos <= input@.len(),
    ensures
        match r {
            Some((v, next)) => next == pos + 1 && next <= input@.len() && after(
                input@,
                pos as int,
            ).len() >= 1 && after(input@, pos as int)[0] == v,
            None => after(input@, pos as int).len() == 0,
        },
{
    if input.len() - pos < 1 {
        return None;
    }
    Some((input[pos], pos + 1))
}

/// To skip bytes twice is to skip their sum.
pub proof fn lemma_after_after(b: Seq<u8>, n: int, m: int)
    requires
        0 <= n,
        0 <= m,
        n + m <= b.len(),
    ensures
        after(after(b, n), m) == after(b, n + m),
{
    assert(after(after(b, n), m) =~= after(b, n + m));
}

/// What follows an encoding in a longer string is what was put behind it.
pub proof fn lemma_after_prefix(head: Seq<u8>, rest: Seq<u8>)
    ensures
        after(head + rest, head.len() as int) == rest,
        (head + rest).subrange(0, head.len() as int) == head,
{
    assert(after(head + rest, head.len() as int) =~= rest);
    assert((head + rest).subrange(0, head.len() as int) =~= head);
}

/// A kind of item with a byte form that can be read back.
pub trait Wire {
    /// What an item is, in specifications.
    type Model;

    /// What an item is, in memory.
    type Item;

    /// The model of an item.
    spec fn model(item: Self::Item) -> Self::Model;

    /// Whether an item has a byte form.
    spec fn fits(v: Self::Model) -> bool;

    /// The byte form of an item.
    spec fn enc(v: Self::Model) -> Seq<u8>;

    /// Reads an item off the front of `b`: the item and the number of
    /// bytes that it took.
    spec fn parse(b: Seq<u8>) -> Option<(Self::Model, int)>;

    /// The parser undoes the encoding, whatever follows it.
    proof fn lemma_parse_enc(v: Self::Model, rest: Seq<u8>)
        requires
            Self::fits(v),
        ensures
            Self::parse(Self::enc(v) + rest) == Some((v, Self::enc(v).len() as int)),
    ;

    /// What the parser reads is the encoding of its result.
    proof fn lemma_enc_parse(b: Seq<u8>)
        requires
            Self::parse(b) is Some,
        ensures
            0 <= Self::parse(b).unwrap().1 <= b.len(),
            Self::fits(Self::parse(b).unwrap().0),
            Self::enc(Self::parse(b).unwrap().0) == b.subrange(0, Self::parse(b).unwrap().1),
    ;

    /// Reads an item at the position `pos` of `input`.
    fn read(input: &Vec<u8>, pos: usize) -> (r: Option<(Self::Item, usize)>)
        requires
            pos <= input@.len(),
        ensures
            match r {
                Some((item, next)) => pos <= next <= input@.len() && Self::parse(
                    after(input@, pos as int),
                ) == Some((Self::model(item), next - pos)),
                None => Self::parse(after(input@, pos as int)) is None,
            },
    ;
}

/// The byte forms of the items of `s`, one after the other.
pub open spec fn enc_many<F: Wire>(s: Seq<F::Model>) -> Seq<u8>
    decreases s.len(),
{
    if s.len() == 0 {
        Seq::empty()
    } else {
        enc_many::<F>(s.drop_last()) + F::enc(s.last())
    }
}

/// Whether every item of `s` has a byte form.
pub open spec fn all_fit<F: Wire>(s: Seq<F::Model>) -> bool {
    forall|i: int| 0 <= i < s.len() ==> F::fits(#[trigger] s[i])
}

/// Reads `count` items off the front of `b`.
pub open spec fn parse_many<F: Wire>(count: nat, b: Seq<u8>) -> Option<(Seq<F::Model>, int)>
    decreases count,
{
    if count == 0 {
        Some((Seq::empty(), 0))
    } else {
        match F::parse(b) {
            None => None,
            Some((v, n)) => if 0 <= n <= b.len() {
                match parse_many::<F>((count - 1) as nat, after(b, n)) {
                    None => None,
                    Some((vs, m)) => Some((seq![v] + vs, n + m)),
                }
            } else {
                None
            },
        }
    }
}

/// The byte forms of a sequence are that of its first item and then those
/// of the others.
pub proof fn lemma_enc_many_front<F: Wire>(s: Seq<F::Model>)
    requires
        s.len() > 0,
    ensures
        enc_many::<F>(s) == F::enc(s[0]) + enc_many::<F>(s.drop_first()),
    decreases s.len(),
{
    if s.len() == 1 {
        assert(s.drop_last() =~= Seq::<F::Model>::empty());
        assert(s.drop_first() =~= Seq::<F::Model>::empty());
        assert(enc_many::<F>(s) =~= F::enc(s[0]) + enc_many::<F>(s.drop_first()));
    } else {
        lemma_enc_many_front::<F>(s.drop_last());
        assert(s.drop_last().drop_first() =~= s.drop_first().drop_last());
        assert(s.drop_first().last() == s.last());
        assert(s.drop_last()[0] == s[0]);
        assert(enc_many::<F>(s) =~= F::enc(s[0]) + enc_many::<F>(s.drop_first()));
    }
}

/// The parser of sequences undoes their encoding, whatever follows it.
pub proof fn lemma_many_parse_enc<F: Wire>(s: Seq<F::Model>, rest: Seq<u8>)
    requires
        all_fit::<F>(s),
    ensures
        parse_many::<F>(s.len(), enc_many::<F>(s) + rest) == Some(
            (s, enc_many::<F>(s).len() as int),
        ),
    decreases s.len(),
{
    if s.len() == 0 {
        assert(enc_many::<F>(s).len() == 0);
    } else {
        let head = F::enc(s[0]);
        let tail = s.drop_first();
        lemma_enc_many_front::<F>(s);
        let b = enc_many::<F>(s) + rest;
        assert(b =~= head + (enc_many::<F>(tail) + rest));
        assert(F::fits(s[0]));
        F::lemma_parse_enc(s[0], enc_many::<F>(tail) + rest);
        lemma_after_prefix(head, enc_many::<F>(tail) + rest);
        assert(all_fit::<F>(tail)) by {
            assert forall|i: int| 0 <= i < tail.len() implies F::fits(#[trigger] tail[i]) by {
                assert(tail[i] == s[i + 1]);
            }
        }
        lemma_many_parse_enc::<F>(tail, rest);
        assert(seq![s[0]] + tail =~= s);
    }
}

/// What the parser of sequences reads is the encoding of its result.
pub proof fn lemma_many_enc_parse<F: Wire>(count: nat, b: Seq<u8>)
    requires
        parse_many::<F>(count, b) is Some,
    ensures
        parse_many::<F>(count, b).unwrap().0.len() == count,
        0 <= parse_many::<F>(count, b).unwrap().1 <= b.len(),
        all_fit::<F>(parse_many::<F>(count, b).unwrap().0),
        enc_many::<F>(parse_many::<F>(count, b).unwrap().0) == b.subrange(
            0,
            parse_many::<F>(count, b).unwrap().1,
        ),
    decreases count,
{
    let s = parse_many::<F>(count, b).unwrap().0;
    let total = parse_many::<F>(count, b).unwrap().1;
    if count == 0 {
        assert(enc_many::<F>(s) =~= b.subrange(0, 0));
    } else {
        let (v, n) = F::parse(b)->0;
        F::lemma_enc_parse(b);
        let (vs, m) = parse_many::<F>((count - 1) as nat, after(b, n))->0;
        lemma_many_enc_parse::<F>((count - 1) as nat, after(b, n));
        assert(s =~= seq![v] + vs);
        assert(s.drop_first() =~= vs);
        lemma_enc_many_front::<F>(s);
        assert(after(b, n).subrange(0, m) =~= b.subrange(n, n + m));
        assert(b.subrange(0, n) + b.subrange(n, n + m) =~= b.subrange(0, n + m));
        assert forall|i: int| 0 <= i < s.len() implies F::fits(#[trigger] s[i]) by {
            if i > 0 {
                assert(s[i] == vs[i - 1]);
            }
        }
    }
}

/// The models of items.
pub open spec fn models<F: Wire>(items: Seq<F::Item>) -> Seq<F::Model> {
    items.map_values(|item: F::Item| F::model(item))
}

/// What has been read so far, followed by what the rest will give.
pub open spec fn extended<T>(read: Seq<T>, taken: int, rest: Option<(Seq<T>, int)>) -> Option<
    (Seq<T>, int),
> {
    match rest {
        None => None,
        Some((more, n)) => Some((read + more, taken + n)),
    }
}

/// Reads `count` items at the position `pos` of `input`.
pub fn read_many<F: Wire>(input: &Vec<u8>, pos: usize, count: usize) -> (r: Option<
    (Vec<F::Item>, usize),
>)
    requires
        pos <= input@.len(),
    ensures
        match r {
            Some((items, next)) => pos <= next <= input@.len() && parse_many::<F>(
                count as nat,
                after(input@, pos as int),
            ) == Some((models::<F>(items@), next - pos)),
            None => parse_many::<F>(count as nat, after(input@, pos as int)) is None,
        },
{
    let mut items: Vec<F::Item> = Vec::new();
    let mut at: usize = pos;
    let mut i: usize = 0;
    let ghost whole = parse_many::<F>(count as nat, after(input@, pos as int));
    assert(models::<F>(items@) + Seq::<F::Model>::empty() =~= models::<F>(items@)) by {
        assert(models::<F>(items@) =~= Seq::<F::Model>::empty());
    }
    assert(whole == extended(
        models::<F>(items@),
        0,
        parse_many::<F>(count as nat, after(input@, pos as int)),
    )) by {
        match parse_many::<F>(count as nat, after(input@, pos as int)) {
            None => {},
            Some((more, n)) => {
                assert(models::<F>(items@) + more =~= more);
            },
        }
    }
    while i < count
        invariant
            pos <= at <= input@.len(),
            i <= count,
            whole == parse_many::<F>(count as nat, after(input@, pos as int)),
            whole == extended(
                models::<F>(items@),
                at - pos,
                parse_many::<F>((count - i) as nat, after(input@, at as int)),
            ),
        decreases count - i,
    {
        let ghost before = models::<F>(items@);
        let ghost here = after(input@, at as int);
        match F::read(input, at) {
            None => {
                return None;
            },
            Some((item, next)) => {
                proof {
                    let n = next - at;
                    lemma_after_after(input@, at as int, n);
                    let rest = parse_many::<F>((count - i - 1) as nat, after(input@, next as int));
                    assert(models::<F>(items@.push(item)) =~= before.push(F::model(item)));
                    match rest {
                        None => {},
                        Some((more, m)) => {
                            assert(before + (seq![F::model(item)] + more) =~= before.push(
                                F::model(item),
                            ) + more);
                        },
                    }
                }
                items.push(item);
                at = next;
                i = i + 1;
            },
        }
    }
    assert(models::<F>(items@) + Seq::<F::Model>::empty() =~= models::<F>(items@));
    Some((items, at))
}

/// Whether a list has a byte form: at most 65535 items, each with a byte
/// form.
pub open spec fn list_fits<F: Wire>(s: Seq<F::Model>) -> bool {
    s.len() <= 0xffff && all_fit::<F>(s)
}

/// The byte form of a list: the number of its items, then the items.
pub open spec fn enc_list<F: Wire>(s: Seq<F::Model>) -> Seq<u8> {
    enc_len(s.len()) + enc_many::<F>(s)
}

/// Reads a list off the front of `b`.
pub open spec fn parse_list<F: Wire>(b: Seq<u8>) -> Option<(Seq<F::Model>, int)> {
    match parse_u16(b) {
        None => None,
        Some((count, _)) => match parse_many::<F>(count as nat, after(b, 2)) {
            None => None,
            Some((s, n)) => Some((s, 2 + n)),
        },
    }
}

/// The parser of lists undoes their encoding, whatever follows it.
pub proof fn lemma_list_parse_enc<F: Wire>(s: Seq<F::Model>, rest: Seq<u8>)
    requires
        list_fits::<F>(s),
    ensures
        parse_list::<F>(enc_list::<F>(s) + rest) == Some((s, enc_list::<F>(s).len() as int)),
{
    let b = enc_list::<F>(s) + rest;
    assert(b =~= enc_u16(s.len() as u16) + (enc_many::<F>(s) + rest));
    lemma_u16_parse_enc(s.len() as u16, enc_many::<F>(s) + rest);
    lemma_after_prefix(enc_u16(s.len() as u16), enc_many::<F>(s) + rest);
    lemma_many_parse_enc::<F>(s, rest);
}

/// What the parser of lists reads is the encoding of its result.
pub proof fn lemma_list_enc_parse<F: Wire>(b: Seq<u8>)
    requires
        parse_list::<F>(b) is Some,
    ensures
        0 <= parse_list::<F>(b).unwrap().1 <= b.len(),
        list_fits::<F>(parse_list::<F>(b).unwrap().0),
        enc_list::<F>(parse_list::<F>(b).unwrap().0) == b.subrange(0, parse_list::<F>(b).unwrap().1),
{
    let count = parse_u16(b).unwrap().0;
    lemma_u16_enc_parse(b);
    lemma_many_enc_parse::<F>(count as nat, after(b, 2));
    let (s, n) = parse_many::<F>(count as nat, after(b, 2))->0;
    assert(after(b, 2).subrange(0, n) =~= b.subrange(2, 2 + n));
    assert(b.subrange(0, 2) + b.subrange(2, 2 + n) =~= b.subrange(0, 2 + n));
}

/// Reads a list at the position `pos` of `input`.
pub fn read_list<F: Wire>(input: &Vec<u8>, pos: usize) -> (r: Option<(Vec<F::Item>, usize)>)
    requires
        pos <= input@.len(),
    ensures
        match r {
            Some((items, next)) => pos <= next <= input@.len() && parse_list::<F>(
                after(input@, pos as int),
            ) == Some((models::<F>(items@), next - pos)),
            None => parse_list::<F>(after(input@, pos as int)) is None,
        },
{
    let (count, at) = match read_u16(input, pos) {
        None => {
            return None;
        },
        Some(r) => r,
    };
    proof {
        lemma_after_after(input@, pos as int, 2);
    }
    read_many::<F>(input, at, count as usize)
}

/// Two items, one after the other.
pub struct Pair<A, B> {
    pub first: A,
    pub second: B,
}

impl<A: Wire, B: Wire> Wire for Pair<A, B> {
    type Model = (A::Model, B::Model);

    type Item = (A::Item, B::Item);

    open spec fn model(item: Self::Item) -> Self::Model {
        (A::model(item.0), B::model(item.1))
    }

    open spec fn fits(v: Self::Model) -> bool {
        A::fits(v.0) && B::fits(v.1)
    }

    open spec fn enc(v: Self::Model) -> Seq<u8> {
        A::enc(v.0) + B::enc(v.1)
    }

    open spec fn parse(b: Seq<u8>) -> Option<(Self::Model, int)> {
        match A::parse(b) {
            None => None,
            Some((x, n)) => if 0 <= n <= b.len() {
                match B::parse(after(b, n)) {
                    None => None,
                    Some((y, m)) => Some(((x, y), n + m)),
                }
            } else {
                None
            },
        }
    }

    proof fn lemma_parse_enc(v: Self::Model, rest: Seq<u8>) {
        let b = Self::enc(v) + rest;
        assert(b =~= A::enc(v.0) + (B::enc(v.1) + rest));
        A::lemma_parse_enc(v.0, B::enc(v.1) + rest);
        lemma_after_prefix(A::enc(v.0), B::enc(v.1) + rest);
        B::lemma_parse_enc(v.1, rest);
    }

    proof fn lemma_enc_parse(b: Seq<u8>) {
        A::lemma_enc_parse(b);
        let (x, n) = A::parse(b)->0;
        B::lemma_enc_parse(after(b, n));
        let (y, m) = B::parse(after(b, n))->0;
        assert(after(b, n).subrange(0, m) =~= b.subrange(n, n + m));
        assert(b.subrange(0, n) + b.subrange(n, n + m) =~= b.subrange(0, n + m));
    }

    fn read(input: &Vec<u8>, pos: usize) -> (r: Option<(Self::Item, usize)>) {
        let (x, at) = match A::read(input, pos) {
            None => {
                return None;
            },
            Some(r) => r,
        };
        proof {
            lemma_after_after(input@, pos as int, at - pos);
        }
        let (y, next) = match B::read(input, at) {
            None => {
                return None;
            },
            Some(r) => r,
        };
        Some(((x, y), next))
    }
}

/// A list of items: their number in 16 bits, then the items.
pub struct ListOf<F> {
    pub of: F,
}

impl<F: Wire> Wire for ListOf<F> {
    type Model = Seq<F::Model>;

    type Item = Vec<F::Item>;

    open spec fn model(item: Self::Item) -> Self::Model {
        models::<F>(item@)
    }

    open spec fn fits(v: Self::Model) -> bool {
        list_fits::<F>(v)
    }

    open spec fn enc(v: Self::Model) -> Seq<u8> {
        enc_list::<F>(v)
    }

    open spec fn parse(b: Seq<u8>) -> Option<(Self::Model, int)> {
        parse_list::<F>(b)
    }

    proof fn lemma_parse_enc(v: Self::Model, rest: Seq<u8>) {
        lemma_list_parse_enc::<F>(v, rest);
    }

    proof fn lemma_enc_parse(b: Seq<u8>) {
        lemma_list_enc_parse::<F>(b);
    }

    fn read(input: &Vec<u8>, pos: usize) -> (r: Option<(Self::Item, usize)>) {
        read_list::<F>(input, pos)
    }
}

/// A 16-bit integer, least significant byte first.
pub struct Short;

impl Wire for Short {
    type Model = u16;

    type Item = u16;

    open spec fn model(item: u16) -> u16 {
        item
    }

    open spec fn fits(v: u16) -> bool {
        true
    }

    open spec fn enc(v: u16) -> Seq<u8> {
        enc_u16(v)
    }

    open spec fn parse(b: Seq<u8>) -> Option<(u16, int)> {
        parse_u16(b)
    }

    proof fn lemma_parse_enc(v: u16, rest: Seq<u8>) {
        lemma_u16_parse_enc(v, rest);
    }

    proof fn lemma_enc_parse(b: Seq<u8>) {
        lemma_u16_enc_parse(b);
    }

    fn read(input: &Vec<u8>, pos: usize) -> (r: Option<(u16, usize)>) {
        read_u16(input, pos)
    }
}

} // verus!
