use vstd::prelude::*;
use crate::wire::bytes_eq;
use crate::wire::push_all;

verus! {

/// Key-exchange curves the library can negotiate.
#[derive(Clone, Copy, Debug, PartialEq, Eq, Structural)]
pub enum Exchange {
    P256,
    P384,
}

/// Stream ciphers the library can negotiate.
#[derive(Clone, Copy, Debug, PartialEq, Eq, Structural)]
pub enum Cipher {
    Aes128,
    Aes256,
}

/// MAC / key-derivation hashes the library can negotiate.
#[derive(Clone, Copy, Debug, PartialEq, Eq, Structural)]
pub enum Digest {
    Sha256,
    Sha512,
}

/// Wire name of a key-exchange curve.
pub open spec fn exchange_name(e: Exchange) -> Seq<u8> {
    match e {
        Exchange::P256 => seq![80u8, 45u8, 50u8, 53u8, 54u8],
        Exchange::P384 => seq![80u8, 45u8, 51u8, 56u8, 52u8],
    }
}

/// Wire name of a cipher.
pub open spec fn cipher_name(c: Cipher) -> Seq<u8> {
    match c {
        Cipher::Aes128 => seq![65u8, 69u8, 83u8, 45u8, 49u8, 50u8, 56u8],
        Cipher::Aes256 => seq![65u8, 69u8, 83u8, 45u8, 50u8, 53u8, 54u8],
    }
}

/// Wire name of a hash.
pub open spec fn hash_name(h: Digest) -> Seq<u8> {
    match h {
        Digest::Sha256 => seq![83u8, 72u8, 65u8, 50u8, 53u8, 54u8],
        Digest::Sha512 => seq![83u8, 72u8, 65u8, 53u8, 49u8, 50u8],
    }
}

pub fn exchange_name_vec(e: Exchange) -> (r: Vec<u8>)
    ensures
        r@ == exchange_name(e),
{
    let mut v: Vec<u8> = Vec::new();
    match e {
        Exchange::P256 => {
            v.push(80u8);
            v.push(45u8);
            v.push(50u8);
            v.push(53u8);
            v.push(54u8);
        }
        Exchange::P384 => {
            v.push(80u8);
            v.push(45u8);
            v.push(51u8);
            v.push(56u8);
            v.push(52u8);
        }
    }
    proof {
        assert(v@ =~= exchange_name(e));
    }
    v
}

pub fn cipher_name_vec(c: Cipher) -> (r: Vec<u8>)
    ensures
        r@ == cipher_name(c),
{
    let mut v: Vec<u8> = Vec::new();
    match c {
        Cipher::Aes128 => {
            v.push(65u8);
            v.push(69u8);
            v.push(83u8);
            v.push(45u8);
            v.push(49u8);
            v.push(50u8);
            v.push(56u8);
        }
        Cipher::Aes256 => {
            v.push(65u8);
            v.push(69u8);
            v.push(83u8);
            v.push(45u8);
            v.push(50u8);
            v.push(53u8);
            v.push(54u8);
        }
    }
    proof {
        assert(v@ =~= cipher_name(c));
    }
    v
}

pub fn hash_name_vec(h: Digest) -> (r: Vec<u8>)
    ensures
        r@ == hash_name(h),
{
    let mut v: Vec<u8> = Vec::new();
    match h {
        Digest::Sha256 => {
            v.push(83u8);
            v.push(72u8);
            v.push(65u8);
            v.push(50u8);
            v.push(53u8);
            v.push(54u8);
        }
        Digest::Sha512 => {
            v.push(83u8);
            v.push(72u8);
            v.push(65u8);
            v.push(53u8);
            v.push(49u8);
            v.push(50u8);
        }
    }
    proof {
        assert(v@ =~= hash_name(h));
    }
    v
}

/// The curve whose wire name is `t`, if any.
pub open spec fn exchange_of_name(t: Seq<u8>) -> Option<Exchange> {
    if t == exchange_name(Exchange::P256) {
        Some(Exchange::P256)
    } else if t == exchange_name(Exchange::P384) {
        Some(Exchange::P384)
    } else {
        None
    }
}

/// The cipher whose wire name is `t`, if any.
pub open spec fn cipher_of_name(t: Seq<u8>) -> Option<Cipher> {
    if t == cipher_name(Cipher::Aes128) {
        Some(Cipher::Aes128)
    } else if t == cipher_name(Cipher::Aes256) {
        Some(Cipher::Aes256)
    } else {
        None
    }
}

/// The hash whose wire name is `t`, if any.
pub open spec fn hash_of_name(t: Seq<u8>) -> Option<Digest> {
    if t == hash_name(Digest::Sha256) {
        Some(Digest::Sha256)
    } else if t == hash_name(Digest::Sha512) {
        Some(Digest::Sha512)
    } else {
        None
    }
}

pub fn parse_exchange(t: &[u8]) -> (r: Option<Exchange>)
    ensures
        r == exchange_of_name(t@),
{
    let n1 = exchange_name_vec(Exchange::P256);
    if bytes_eq(t, n1.as_slice()) {
        return Some(Exchange::P256);
    }
    let n2 = exchange_name_vec(Exchange::P384);
    if bytes_eq(t, n2.as_slice()) {
        return Some(Exchange::P384);
    }
    None
}

pub fn parse_cipher(t: &[u8]) -> (r: Option<Cipher>)
    ensures
        r == cipher_of_name(t@),
{
    let n1 = cipher_name_vec(Cipher::Aes128);
    if bytes_eq(t, n1.as_slice()) {
        return Some(Cipher::Aes128);
    }
    let n2 = cipher_name_vec(Cipher::Aes256);
    if bytes_eq(t, n2.as_slice()) {
        return Some(Cipher::Aes256);
    }
    None
}

pub fn parse_hash(t: &[u8]) -> (r: Option<Digest>)
    ensures
        r == hash_of_name(t@),
{
    let n1 = hash_name_vec(Digest::Sha256);
    if bytes_eq(t, n1.as_slice()) {
        return Some(Digest::Sha256);
    }
    let n2 = hash_name_vec(Digest::Sha512);
    if bytes_eq(t, n2.as_slice()) {
        return Some(Digest::Sha512);
    }
    None
}

/// The earliest entry of `a` that also occurs in `b`, scanning `a` in order.
pub open spec fn first_common(a: Seq<Seq<u8>>, b: Seq<Seq<u8>>) -> Option<Seq<u8>>
    decreases a.len(),
{
    if a.len() == 0 {
        None
    } else if b.contains(a[0]) {
        Some(a[0])
    } else {
        first_common(a.drop_first(), b)
    }
}

/// A found entry is common to both lists.
pub proof fn lemma_first_common_in_both(a: Seq<Seq<u8>>, b: Seq<Seq<u8>>)
    requires
        first_common(a, b) is Some,
    ensures
        a.contains(first_common(a, b)->Some_0),
        b.contains(first_common(a, b)->Some_0),
    decreases a.len(),
{
    if a.len() > 0 {
        if b.contains(a[0]) {
            assert(a.contains(a[0]));
        } else {
            lemma_first_common_in_both(a.drop_first(), b);
            let x = first_common(a.drop_first(), b)->Some_0;
            let i = choose|i: int| 0 <= i < a.drop_first().len() && a.drop_first()[i] == x;
            assert(a[i + 1] == x);
        }
    }
}

/// The scan finds nothing exactly when the two lists share no entry.
pub proof fn lemma_first_common_none(a: Seq<Seq<u8>>, b: Seq<Seq<u8>>)
    ensures
        first_common(a, b) is None <==> (forall|i: int, j: int|
            0 <= i < a.len() && 0 <= j < b.len() ==> a[i] != b[j]),
    decreases a.len(),
{
    if a.len() > 0 {
        lemma_first_common_none(a.drop_first(), b);
        if b.contains(a[0]) {
            let j = choose|j: int| 0 <= j < b.len() && b[j] == a[0];
            assert(a[0] == b[j]);
        } else {
            if first_common(a, b) is None {
                assert forall|i: int, j: int|
                    0 <= i < a.len() && 0 <= j < b.len() implies a[i] != b[j] by {
                    if i > 0 {
                        assert(a.drop_first()[i - 1] == a[i]);
                    } else {
                        assert(!b.contains(a[0]));
                    }
                }
            } else {
                assert(first_common(a.drop_first(), b) is Some);
                let (i, j) = choose|i: int, j: int|
                    0 <= i < a.drop_first().len() && 0 <= j < b.len() && a.drop_first()[i] == b[j];
                assert(a[i + 1] == b[j]);
            }
        }
    }
}

/// Having no common entry does not depend on which list is scanned.
pub proof fn lemma_no_common_symmetric(a: Seq<Seq<u8>>, b: Seq<Seq<u8>>)
    ensures
        first_common(a, b) is None <==> first_common(b, a) is None,
{
    lemma_first_common_none(a, b);
    lemma_first_common_none(b, a);
}

fn contains_token(l: &Vec<Vec<u8>>, x: &[u8]) -> (r: bool)
    ensures
        r == l.deep_view().contains(x@),
{
    let mut i: usize = 0;
    while i < l.len()
        invariant
            0 <= i <= l@.len(),
            l.deep_view().len() == l@.len(),
            forall|j: int| 0 <= j < i ==> l.deep_view()[j] != x@,
        decreases l@.len() - i,
    {
        assert(l.deep_view()[i as int] == l@[i as int]@);
        if bytes_eq(l[i].as_slice(), x) {
            return true;
        }
        i = i + 1;
    }
    false
}

/// Scans `a` in order for the earliest entry also present in `b`.
pub fn select_first_common(a: &Vec<Vec<u8>>, b: &Vec<Vec<u8>>) -> (r: Option<Vec<u8>>)
    ensures
        match r {
            Some(v) => first_common(a.deep_view(), b.deep_view()) == Some(v@),
            None => first_common(a.deep_view(), b.deep_view()) is None,
        },
{
    let ghost av = a.deep_view();
    let ghost bv = b.deep_view();
    proof {
        assert(av.skip(0) =~= av);
    }
    let mut i: usize = 0;
    while i < a.len()
        invariant
            0 <= i <= a@.len(),
            av == a.deep_view(),
            bv == b.deep_view(),
            av.len() == a@.len(),
            first_common(av, bv) == first_common(av.skip(i as int), bv),
        decreases a@.len() - i,
    {
        assert(av[i as int] == a@[i as int]@);
        assert(av.skip(i as int)[0] == av[i as int]);
        if contains_token(b, a[i].as_slice()) {
            let mut out: Vec<u8> = Vec::new();
            push_all(&mut out, a[i].as_slice());
            return Some(out);
        }
        proof {
            assert(av.skip(i as int).drop_first() =~= av.skip(i + 1));
        }
        i = i + 1;
    }
    proof {
        assert(av.skip(av.len() as int).len() == 0);
    }
    None
}

/// Strict lexicographic order on byte strings.
pub open spec fn lex_lt(a: Seq<u8>, b: Seq<u8>) -> bool
    decreases a.len(),
{
    if a.len() == 0 {
        b.len() > 0
    } else if b.len() == 0 {
        false
    } else if a[0] < b[0] {
        true
    } else if a[0] > b[0] {
        false
    } else {
        lex_lt(a.drop_first(), b.drop_first())
    }
}

/// Of two distinct byte strings, exactly one is lexicographically smaller.
pub proof fn lemma_lex_trichotomy(a: Seq<u8>, b: Seq<u8>)
    ensures
        a == b <==> (!lex_lt(a, b) && !lex_lt(b, a)),
        !(lex_lt(a, b) && lex_lt(b, a)),
    decreases a.len(),
{
    if a.len() == 0 || b.len() == 0 {
        if a.len() == 0 && b.len() == 0 {
            assert(a =~= b);
        }
    } else {
        lemma_lex_trichotomy(a.drop_first(), b.drop_first());
        if a[0] == b[0] && a.drop_first() == b.drop_first() {
            assert forall|i: int| 0 <= i < a.len() implies a[i] == b[i] by {
                if i > 0 {
                    assert(a[i] == a.drop_first()[i - 1]);
                    assert(b[i] == b.drop_first()[i - 1]);
                }
            }
            assert(a =~= b);
        }
        if a == b {
            assert(a.drop_first() =~= b.drop_first());
        }
    }
}

pub fn lex_less(a: &[u8], b: &[u8]) -> (r: bool)
    ensures
        r == lex_lt(a@, b@),
{
    proof {
        assert(a@.skip(0) =~= a@);
        assert(b@.skip(0) =~= b@);
    }
    let mut i: usize = 0;
    while i < a.len() && i < b.len()
        invariant
            0 <= i <= a@.len(),
            0 <= i <= b@.len(),
            lex_lt(a@, b@) == lex_lt(a@.skip(i as int), b@.skip(i as int)),
        decreases a@.len() - i,
    {
        if a[i] < b[i] {
            assert(a@.skip(i as int)[0] == a@[i as int]);
            return true;
        }
        if a[i] > b[i] {
            assert(a@.skip(i as int)[0] == a@[i as int]);
            return false;
        }
        proof {
            assert(a@.skip(i as int)[0] == a@[i as int]);
            assert(b@.skip(i as int)[0] == b@[i as int]);
            assert(a@.skip(i as int).drop_first() =~= a@.skip(i + 1));
            assert(b@.skip(i as int).drop_first() =~= b@.skip(i + 1));
        }
        i = i + 1;
    }
    a.len() < b.len()
}

} // verus!
