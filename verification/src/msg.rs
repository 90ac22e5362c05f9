use vstd::prelude::*;
use crate::keys::PublicKey;
use crate::keys::key_type_code;
use crate::keys::key_data;
use crate::wire;
use crate::wire::varint;
use crate::wire::bytes_eq;
use crate::wire::push_all;
use crate::wire::write_varint;
use crate::wire::read_varint;
use crate::wire::copy_range;

verus! {

/// One length-delimited envelope field: tag byte, payload length, payload.
pub open spec fn len_field(tag: u8, payload: Seq<u8>) -> Seq<u8> {
    seq![tag] + varint(payload.len()) + payload
}

/// A length-delimited field with this tag and payload sits at `pos`.
pub open spec fn len_field_at(b: Seq<u8>, pos: int, tag: u8, q: Seq<u8>) -> bool {
    pos >= 0 && pos + len_field(tag, q).len() <= b.len() && b.subrange(
        pos,
        pos + len_field(tag, q).len() as int,
    ) == len_field(tag, q)
}

/// Splits a concatenation that fills the suffix of `b` from `pos` on.
proof fn lemma_concat_prefix(b: Seq<u8>, pos: int, x: Seq<u8>, rest: Seq<u8>)
    requires
        0 <= pos <= b.len(),
        b.subrange(pos, b.len() as int) == x + rest,
    ensures
        pos + x.len() <= b.len(),
        b.subrange(pos, pos + x.len() as int) == x,
        b.subrange(pos + x.len() as int, b.len() as int) == rest,
{
    let s = b.subrange(pos, b.len() as int);
    assert(s.len() == x.len() + rest.len());
    assert(pos + x.len() <= b.len());
    assert forall|k: int| 0 <= k < x.len() implies b.subrange(pos, pos + x.len() as int)[k] == x[k]
        by {
        assert(b.subrange(pos, pos + x.len() as int)[k] == b[pos + k]);
        assert(s[k] == b[pos + k]);
        assert((x + rest)[k] == x[k]);
    }
    assert(b.subrange(pos, pos + x.len() as int) =~= x);
    assert forall|k: int|
        0 <= k < rest.len() implies b.subrange(pos + x.len() as int, b.len() as int)[k] == rest[k]
        by {
        assert(b.subrange(pos + x.len() as int, b.len() as int)[k] == b[pos + x.len() + k]);
        assert(s[x.len() + k] == b[pos + x.len() + k]);
        assert((x + rest)[x.len() + k] == rest[k]);
    }
    assert(b.subrange(pos + x.len() as int, b.len() as int) =~= rest);
}

/// Decomposes a field found at `pos` into tag byte, length and payload.
proof fn lemma_len_field_parts(b: Seq<u8>, pos: int, tag: u8, q: Seq<u8>)
    requires
        len_field_at(b, pos, tag, q),
    ensures
        b[pos] == tag,
        wire::varint_at(b, pos + 1, q.len()),
        b.subrange(pos + 1 + varint(q.len()).len() as int, pos + len_field(tag, q).len() as int)
            == q,
        len_field(tag, q).len() == 1 + varint(q.len()).len() + q.len(),
{
    let f = len_field(tag, q);
    let v = varint(q.len());
    assert(f =~= seq![tag] + v + q);
    assert(b[pos] == b.subrange(pos, pos + f.len() as int)[0]);
    assert((seq![tag] + v + q)[0] == tag);
    assert forall|k: int| 0 <= k < v.len() implies b.subrange(pos + 1, pos + 1 + v.len() as int)[k]
        == v[k] by {
        assert(b.subrange(pos + 1, pos + 1 + v.len() as int)[k] == b[pos + 1 + k]);
        assert(b.subrange(pos, pos + f.len() as int)[1 + k] == b[pos + 1 + k]);
        assert((seq![tag] + v + q)[1 + k] == v[k]);
    }
    assert(b.subrange(pos + 1, pos + 1 + v.len() as int) =~= v);
    assert forall|k: int|
        0 <= k < q.len() implies b.subrange(
        pos + 1 + v.len() as int,
        pos + f.len() as int,
    )[k] == q[k] by {
        assert(b.subrange(pos + 1 + v.len() as int, pos + f.len() as int)[k] == b[pos + 1 + v.len()
            + k]);
        assert(b.subrange(pos, pos + f.len() as int)[1 + v.len() + k] == b[pos + 1 + v.len() + k]);
        assert((seq![tag] + v + q)[1 + v.len() + k] == q[k]);
    }
    assert(b.subrange(pos + 1 + v.len() as int, pos + f.len() as int) =~= q);
}

/// Two fields with one tag at one position carry one payload.
proof fn lemma_len_field_at_unique(b: Seq<u8>, pos: int, tag: u8, q1: Seq<u8>, q2: Seq<u8>)
    requires
        len_field_at(b, pos, tag, q1),
        len_field_at(b, pos, tag, q2),
    ensures
        q1 == q2,
{
    lemma_len_field_parts(b, pos, tag, q1);
    lemma_len_field_parts(b, pos, tag, q2);
    wire::lemma_varint_at_unique(b, pos + 1, q1.len(), q2.len());
    assert(varint(q1.len()) == varint(q2.len()));
    assert(len_field(tag, q1).len() == len_field(tag, q2).len());
    assert(q1 == b.subrange(
        pos + 1 + varint(q1.len()).len() as int,
        pos + len_field(tag, q1).len() as int,
    ));
    assert(q2 == b.subrange(
        pos + 1 + varint(q1.len()).len() as int,
        pos + len_field(tag, q1).len() as int,
    ));
}

/// Comma-joined token list, as carried in a Propose message.
pub open spec fn join_tokens(l: Seq<Seq<u8>>) -> Seq<u8>
    decreases l.len(),
{
    if l.len() == 0 {
        seq![]
    } else if l.len() == 1 {
        l[0]
    } else {
        l[0] + seq![44u8] + join_tokens(l.drop_first())
    }
}

pub proof fn lemma_join_snoc(l: Seq<Seq<u8>>, x: Seq<u8>)
    ensures
        join_tokens(l.push(x)) == if l.len() == 0 {
            x
        } else {
            join_tokens(l) + seq![44u8] + x
        },
    decreases l.len(),
{
    if l.len() == 0 {
        assert(l.push(x)[0] == x);
        assert(join_tokens(l.push(x)) == x);
    } else {
        lemma_join_snoc(l.drop_first(), x);
        assert(l.push(x).drop_first() =~= l.drop_first().push(x));
        assert(l.push(x)[0] == l[0]);
        if l.len() == 1 {
            assert(join_tokens(l) == l[0]);
            assert(join_tokens(l.push(x)) == l[0] + seq![44u8] + x);
        } else {
            assert(join_tokens(l.push(x)) == l[0] + seq![44u8] + (join_tokens(l.drop_first())
                + seq![44u8] + x));
            assert(l[0] + seq![44u8] + (join_tokens(l.drop_first()) + seq![44u8] + x) =~= (l[0]
                + seq![44u8] + join_tokens(l.drop_first())) + seq![44u8] + x);
        }
    }
}

/// Joins tokens with commas.
pub fn join_tokens_vec(l: &Vec<Vec<u8>>) -> (r: Vec<u8>)
    ensures
        r@ == join_tokens(l.deep_view()),
{
    let ghost dv = l.deep_view();
    let mut out: Vec<u8> = Vec::new();
    proof {
        assert(dv.take(0) =~= Seq::<Seq<u8>>::empty());
    }
    let mut i: usize = 0;
    while i < l.len()
        invariant
            0 <= i <= l@.len(),
            dv == l.deep_view(),
            dv.len() == l@.len(),
            out@ == join_tokens(dv.take(i as int)),
        decreases l@.len() - i,
    {
        if i > 0 {
            out.push(44u8);
        }
        assert(dv[i as int] == l@[i as int]@);
        push_all(&mut out, l[i].as_slice());
        proof {
            assert(dv.take(i + 1) =~= dv.take(i as int).push(dv[i as int]));
            lemma_join_snoc(dv.take(i as int), dv[i as int]);
            if i > 0 {
                assert(out@ =~= join_tokens(dv.take(i as int)) + seq![44u8] + dv[i as int]);
            } else {
                assert(out@ =~= dv[0]);
            }
        }
        i = i + 1;
    }
    proof {
        assert(dv.take(dv.len() as int) =~= dv);
    }
    out
}

/// Splits on commas: rejoining the pieces with commas restores the input,
/// whatever bytes it holds.
pub fn split_tokens(b: &[u8]) -> (r: Vec<Vec<u8>>)
    ensures
        join_tokens(r.deep_view()) == b@,
{
    let mut out: Vec<Vec<u8>> = Vec::new();
    let mut cur: Vec<u8> = Vec::new();
    let ghost mut toks: Seq<Seq<u8>> = Seq::empty();
    let mut i: usize = 0;
    proof {
        assert(toks.push(cur@) =~= seq![Seq::<u8>::empty()]);
        assert(join_tokens(toks.push(cur@)) =~= b@.take(0));
    }
    while i < b.len()
        invariant
            0 <= i <= b@.len(),
            toks.len() == out@.len(),
            forall|j: int| 0 <= j < toks.len() ==> toks[j] == out@[j]@,
            join_tokens(toks.push(cur@)) == b@.take(i as int),
        decreases b@.len() - i,
    {
        let ghost prev_toks = toks;
        let ghost prev_cur = cur@;
        if b[i] == 44u8 {
            out.push(cur);
            cur = Vec::new();
            proof {
                toks = prev_toks.push(prev_cur);
                lemma_join_snoc(prev_toks.push(prev_cur), Seq::<u8>::empty());
                assert(toks.push(cur@) =~= prev_toks.push(prev_cur).push(Seq::<u8>::empty()));
                assert(join_tokens(toks.push(cur@)) =~= b@.take(i as int) + seq![44u8]);
                assert(b@.take(i as int) + seq![44u8] =~= b@.take(i + 1));
            }
        } else {
            let c = b[i];
            cur.push(c);
            proof {
                lemma_join_snoc(prev_toks, prev_cur.push(c));
                lemma_join_snoc(prev_toks, prev_cur);
                if prev_toks.len() == 0 {
                    assert(join_tokens(prev_toks.push(prev_cur.push(c))) == prev_cur.push(c));
                    assert(prev_cur.push(c) =~= prev_cur + seq![c]);
                } else {
                    assert(join_tokens(prev_toks.push(prev_cur.push(c))) == join_tokens(prev_toks)
                        + seq![44u8] + prev_cur.push(c));
                    assert(join_tokens(prev_toks) + seq![44u8] + prev_cur.push(c) =~= (join_tokens(
                        prev_toks,
                    ) + seq![44u8] + prev_cur) + seq![c]);
                    assert(join_tokens(prev_toks) + seq![44u8] + prev_cur == join_tokens(
                        prev_toks.push(prev_cur),
                    ));
                }
                assert(toks.push(cur@) =~= prev_toks.push(prev_cur.push(c)));
                assert(b@.take(i + 1) =~= b@.take(i as int) + seq![c]);
            }
        }
        i = i + 1;
    }
    let ghost final_toks = toks.push(cur@);
    out.push(cur);
    proof {
        assert forall|j: int| 0 <= j < final_toks.len() implies out.deep_view()[j]
            == final_toks[j] by {
            assert(out.deep_view()[j] == out@[j]@);
        }
        assert(out.deep_view() =~= final_toks);
        assert(b@.take(b@.len() as int) =~= b@);
    }
    out
}

/// Wire encoding of a tagged public key: algorithm code then key bytes.
pub open spec fn pubkey_wire(code: u64, data: Seq<u8>) -> Seq<u8> {
    seq![8u8] + varint(code as nat) + len_field(18u8, data)
}

/// Encodes a public key for the wire.
pub fn encode_pubkey_vec(pk: &PublicKey) -> (r: Vec<u8>)
    ensures
        r@ == pubkey_wire(key_type_code(*pk), key_data(*pk)),
{
    let code: u64 = match pk {
        PublicKey::Rsa(_) => 0,
        PublicKey::Ed25519(_) => 1,
        PublicKey::Secp256k1(_) => 2,
    };
    let data: &Vec<u8> = match pk {
        PublicKey::Rsa(d) => d,
        PublicKey::Ed25519(d) => d,
        PublicKey::Secp256k1(d) => d,
    };
    let mut out: Vec<u8> = Vec::new();
    out.push(8u8);
    write_varint(&mut out, code);
    out.push(18u8);
    write_varint(&mut out, data.len() as u64);
    push_all(&mut out, data.as_slice());
    proof {
        assert(out@ =~= pubkey_wire(key_type_code(*pk), key_data(*pk)));
    }
    out
}

/// Decomposes an encoded public key into its code varint and data field.
proof fn lemma_pubkey_wire_parts(b: Seq<u8>, code: u64, data: Seq<u8>)
    requires
        pubkey_wire(code, data) == b,
    ensures
        b.len() >= 2,
        b[0] == 8u8,
        wire::varint_at(b, 1, code as nat),
        len_field_at(b, 1 + varint(code as nat).len() as int, 18u8, data),
        b.len() == 1 + varint(code as nat).len() + len_field(18u8, data).len(),
{
    let vc = varint(code as nat);
    let lf = len_field(18u8, data);
    assert(b =~= seq![8u8] + (vc + lf));
    assert(b.subrange(0, b.len() as int) =~= b);
    lemma_concat_prefix(b, 0, seq![8u8], vc + lf);
    lemma_concat_prefix(b, 1, vc, lf);
    lemma_concat_prefix(b, 1 + vc.len() as int, lf, Seq::<u8>::empty());
    assert(b[0] == b.subrange(0, 1)[0]);
}

/// Reads a tagged public key strictly: a success pins the input to its
/// canonical encoding, and a refusal means no supported key encodes to it.
pub fn decode_pubkey(b: &[u8]) -> (r: Option<PublicKey>)
    ensures
        r is Some ==> pubkey_wire(key_type_code(r->Some_0), key_data(r->Some_0)) == b@,
        r is None ==> forall|code: u64, data: Seq<u8>|
            !(code <= 2 && pubkey_wire(code, data) == b@),
{
    let blen = b.len();
    if blen == 0 || b[0] != 8u8 {
        proof {
            assert forall|code: u64, data: Seq<u8>|
                !(code <= 2 && pubkey_wire(code, data) == b@) by {
                if code <= 2 && pubkey_wire(code, data) == b@ {
                    lemma_pubkey_wire_parts(b@, code, data);
                }
            }
        }
        return None;
    }
    let (code, pos) = match read_varint(b, 1) {
        Some(x) => x,
        None => {
            proof {
                assert forall|code: u64, data: Seq<u8>|
                    !(code <= 2 && pubkey_wire(code, data) == b@) by {
                    if code <= 2 && pubkey_wire(code, data) == b@ {
                        lemma_pubkey_wire_parts(b@, code, data);
                        assert(!wire::varint_at(b@, 1, code as nat));
                    }
                }
            }
            return None;
        },
    };
    if code > 2 {
        proof {
            assert forall|c: u64, data: Seq<u8>| !(c <= 2 && pubkey_wire(c, data) == b@) by {
                if c <= 2 && pubkey_wire(c, data) == b@ {
                    lemma_pubkey_wire_parts(b@, c, data);
                    wire::lemma_varint_at_unique(b@, 1, c as nat, code as nat);
                }
            }
        }
        return None;
    }
    let (data, dend) = match read_len_field(b, pos, 18u8) {
        Some(x) => x,
        None => {
            proof {
                assert forall|c: u64, d: Seq<u8>| !(c <= 2 && pubkey_wire(c, d) == b@) by {
                    if c <= 2 && pubkey_wire(c, d) == b@ {
                        lemma_pubkey_wire_parts(b@, c, d);
                        wire::lemma_varint_at_unique(b@, 1, c as nat, code as nat);
                        assert(pos == 1 + varint(code as nat).len());
                        assert(!len_field_at(b@, pos as int, 18u8, d));
                    }
                }
            }
            return None;
        },
    };
    if dend != blen {
        proof {
            assert forall|c: u64, d: Seq<u8>| !(c <= 2 && pubkey_wire(c, d) == b@) by {
                if c <= 2 && pubkey_wire(c, d) == b@ {
                    lemma_pubkey_wire_parts(b@, c, d);
                    wire::lemma_varint_at_unique(b@, 1, c as nat, code as nat);
                    lemma_len_field_at_unique(b@, pos as int, 18u8, d, data@);
                }
            }
        }
        return None;
    }
    proof {
        assert(b@ =~= b@.subrange(0, 1) + b@.subrange(1, pos as int) + b@.subrange(
            pos as int,
            blen as int,
        ));
        assert(b@.subrange(0, 1) =~= seq![8u8]);
        assert(b@.subrange(1, pos as int) == varint(code as nat));
        assert(b@.subrange(pos as int, blen as int) == len_field(18u8, data@));
        assert(b@ == pubkey_wire(code, data@));
    }
    if code == 0 {
        Some(PublicKey::Rsa(data))
    } else if code == 1 {
        Some(PublicKey::Ed25519(data))
    } else {
        Some(PublicKey::Secp256k1(data))
    }
}

/// A Propose message: fresh nonce, identity public key, and the three
/// proposer-ordered algorithm catalogs as name tokens.
pub struct Proposal {
    pub rand: Vec<u8>,
    pub pubkey: PublicKey,
    pub exchanges: Vec<Vec<u8>>,
    pub ciphers: Vec<Vec<u8>>,
    pub hashes: Vec<Vec<u8>>,
}

/// The exact wire bytes of a Propose message.
pub open spec fn propose_wire(p: Proposal) -> Seq<u8> {
    len_field(10u8, p.rand@) + len_field(
        18u8,
        pubkey_wire(key_type_code(p.pubkey), key_data(p.pubkey)),
    ) + len_field(26u8, join_tokens(p.exchanges.deep_view())) + len_field(
        34u8,
        join_tokens(p.ciphers.deep_view()),
    ) + len_field(42u8, join_tokens(p.hashes.deep_view()))
}

fn push_len_field(out: &mut Vec<u8>, tag: u8, payload: &[u8])
    ensures
        final(out)@ == old(out)@ + len_field(tag, payload@),
{
    out.push(tag);
    write_varint(out, payload.len() as u64);
    push_all(out, payload);
    proof {
        assert(out@ =~= old(out)@ + len_field(tag, payload@));
    }
}

/// Encodes a Propose message.
pub fn encode_propose(p: &Proposal) -> (r: Vec<u8>)
    ensures
        r@ == propose_wire(*p),
{
    let mut out: Vec<u8> = Vec::new();
    push_len_field(&mut out, 10u8, p.rand.as_slice());
    let pk = encode_pubkey_vec(&p.pubkey);
    push_len_field(&mut out, 18u8, pk.as_slice());
    let ex = join_tokens_vec(&p.exchanges);
    push_len_field(&mut out, 26u8, ex.as_slice());
    let ci = join_tokens_vec(&p.ciphers);
    push_len_field(&mut out, 34u8, ci.as_slice());
    let ha = join_tokens_vec(&p.hashes);
    push_len_field(&mut out, 42u8, ha.as_slice());
    proof {
        assert(out@ =~= propose_wire(*p));
    }
    out
}

fn read_len_field(b: &[u8], pos: usize, tag: u8) -> (r: Option<(Vec<u8>, usize)>)
    ensures
        r is Some ==> pos < r->Some_0.1 <= b@.len() && len_field_at(
            b@,
            pos as int,
            tag,
            r->Some_0.0@,
        ) && r->Some_0.1 == pos + len_field(tag, r->Some_0.0@).len(),
        r is None ==> forall|q: Seq<u8>| !len_field_at(b@, pos as int, tag, q),
{
    let blen = b.len();
    if pos >= blen || b[pos] != tag {
        proof {
            assert forall|q: Seq<u8>| !len_field_at(b@, pos as int, tag, q) by {
                if len_field_at(b@, pos as int, tag, q) {
                    lemma_len_field_parts(b@, pos as int, tag, q);
                }
            }
        }
        return None;
    }
    let (plen, pstart) = match read_varint(b, pos + 1) {
        Some(x) => x,
        None => {
            proof {
                assert forall|q: Seq<u8>| !len_field_at(b@, pos as int, tag, q) by {
                    if len_field_at(b@, pos as int, tag, q) {
                        lemma_len_field_parts(b@, pos as int, tag, q);
                        assert(q.len() <= u64::MAX);
                        assert(((q.len() as u64) as nat) == q.len());
                        assert(!wire::varint_at(b@, pos + 1, (q.len() as u64) as nat));
                    }
                }
            }
            return None;
        },
    };
    if plen > (blen - pstart) as u64 {
        proof {
            assert forall|q: Seq<u8>| !len_field_at(b@, pos as int, tag, q) by {
                if len_field_at(b@, pos as int, tag, q) {
                    lemma_len_field_parts(b@, pos as int, tag, q);
                    wire::lemma_varint_at_unique(b@, pos + 1, q.len(), plen as nat);
                    assert(pos + len_field(tag, q).len() <= b@.len());
                }
            }
        }
        return None;
    }
    let plen_us: usize = plen as usize;
    let pend: usize = pstart + plen_us;
    let payload = copy_range(b, pstart, pend);
    proof {
        let f = len_field(tag, payload@);
        assert(payload@.len() == plen as nat);
        assert(f =~= seq![tag] + varint(plen as nat) + payload@);
        assert(b@.subrange(pos as int, pend as int) =~= b@.subrange(pos as int, pos + 1)
            + b@.subrange(pos + 1, pstart as int) + b@.subrange(pstart as int, pend as int));
        assert(b@.subrange(pos as int, pos + 1) =~= seq![tag]);
        assert(b@.subrange(pos + 1, pstart as int) == varint(plen as nat));
        assert(b@.subrange(pos as int, pend as int) == f);
    }
    Some((payload, pend))
}

/// Where each field of an encoded Propose message sits.
proof fn lemma_propose_wire_parts(b: Seq<u8>, p: Proposal)
    requires
        propose_wire(p) == b,
    ensures
        ({
            let q1 = p.rand@;
            let q2 = pubkey_wire(key_type_code(p.pubkey), key_data(p.pubkey));
            let q3 = join_tokens(p.exchanges.deep_view());
            let q4 = join_tokens(p.ciphers.deep_view());
            let q5 = join_tokens(p.hashes.deep_view());
            let o1 = len_field(10u8, q1).len() as int;
            let o2 = o1 + len_field(18u8, q2).len() as int;
            let o3 = o2 + len_field(26u8, q3).len() as int;
            let o4 = o3 + len_field(34u8, q4).len() as int;
            &&& len_field_at(b, 0, 10u8, q1)
            &&& len_field_at(b, o1, 18u8, q2)
            &&& len_field_at(b, o2, 26u8, q3)
            &&& len_field_at(b, o3, 34u8, q4)
            &&& len_field_at(b, o4, 42u8, q5)
            &&& b.len() == o4 + len_field(42u8, q5).len()
        }),
{
    let lf1 = len_field(10u8, p.rand@);
    let lf2 = len_field(18u8, pubkey_wire(key_type_code(p.pubkey), key_data(p.pubkey)));
    let lf3 = len_field(26u8, join_tokens(p.exchanges.deep_view()));
    let lf4 = len_field(34u8, join_tokens(p.ciphers.deep_view()));
    let lf5 = len_field(42u8, join_tokens(p.hashes.deep_view()));
    assert(b =~= lf1 + (lf2 + (lf3 + (lf4 + lf5))));
    assert(b.subrange(0, b.len() as int) =~= b);
    lemma_concat_prefix(b, 0, lf1, lf2 + (lf3 + (lf4 + lf5)));
    lemma_concat_prefix(b, lf1.len() as int, lf2, lf3 + (lf4 + lf5));
    lemma_concat_prefix(b, lf1.len() as int + lf2.len() as int, lf3, lf4 + lf5);
    lemma_concat_prefix(b, lf1.len() as int + lf2.len() as int + lf3.len() as int, lf4, lf5);
    lemma_concat_prefix(
        b,
        lf1.len() as int + lf2.len() as int + lf3.len() as int + lf4.len() as int,
        lf5,
        Seq::<u8>::empty(),
    );
}

/// One byte string encodes at most one tagged public key.
pub proof fn lemma_pubkey_wire_unique(c1: u64, d1: Seq<u8>, c2: u64, d2: Seq<u8>)
    requires
        pubkey_wire(c1, d1) == pubkey_wire(c2, d2),
    ensures
        c1 == c2,
        d1 == d2,
{
    let s = pubkey_wire(c1, d1);
    lemma_pubkey_wire_parts(s, c1, d1);
    lemma_pubkey_wire_parts(s, c2, d2);
    wire::lemma_varint_at_unique(s, 1, c1 as nat, c2 as nat);
    lemma_len_field_at_unique(s, 1 + varint(c1 as nat).len() as int, 18u8, d1, d2);
}

/// One byte string is the Propose encoding of at most one identity: nonce,
/// key algorithm and key bytes are pinned by the wire form, so a received
/// proposal cannot be read under a different identity or nonce.
pub proof fn lemma_propose_identity_unique(b: Seq<u8>, p1: Proposal, p2: Proposal)
    requires
        propose_wire(p1) == b,
        propose_wire(p2) == b,
    ensures
        p1.rand@ == p2.rand@,
        key_type_code(p1.pubkey) == key_type_code(p2.pubkey),
        key_data(p1.pubkey) == key_data(p2.pubkey),
        join_tokens(p1.exchanges.deep_view()) == join_tokens(p2.exchanges.deep_view()),
        join_tokens(p1.ciphers.deep_view()) == join_tokens(p2.ciphers.deep_view()),
        join_tokens(p1.hashes.deep_view()) == join_tokens(p2.hashes.deep_view()),
{
    lemma_propose_wire_parts(b, p1);
    lemma_propose_wire_parts(b, p2);
    lemma_len_field_at_unique(b, 0, 10u8, p1.rand@, p2.rand@);
    let o1 = len_field(10u8, p1.rand@).len() as int;
    let w1 = pubkey_wire(key_type_code(p1.pubkey), key_data(p1.pubkey));
    let w2 = pubkey_wire(key_type_code(p2.pubkey), key_data(p2.pubkey));
    lemma_len_field_at_unique(b, o1, 18u8, w1, w2);
    lemma_pubkey_wire_unique(
        key_type_code(p1.pubkey),
        key_data(p1.pubkey),
        key_type_code(p2.pubkey),
        key_data(p2.pubkey),
    );
    let o2 = o1 + len_field(18u8, w1).len() as int;
    lemma_len_field_at_unique(
        b,
        o2,
        26u8,
        join_tokens(p1.exchanges.deep_view()),
        join_tokens(p2.exchanges.deep_view()),
    );
    let o3 = o2 + len_field(26u8, join_tokens(p1.exchanges.deep_view())).len() as int;
    lemma_len_field_at_unique(
        b,
        o3,
        34u8,
        join_tokens(p1.ciphers.deep_view()),
        join_tokens(p2.ciphers.deep_view()),
    );
    let o4 = o3 + len_field(34u8, join_tokens(p1.ciphers.deep_view())).len() as int;
    lemma_len_field_at_unique(
        b,
        o4,
        42u8,
        join_tokens(p1.hashes.deep_view()),
        join_tokens(p2.hashes.deep_view()),
    );
}

/// Decodes a Propose message strictly: it accepts exactly the canonical
/// encodings, so a successful decode pins the input bytes.
pub fn decode_propose(b: &[u8]) -> (r: Option<Proposal>)
    ensures
        r is Some ==> propose_wire(r->Some_0) == b@,
        r is None ==> forall|p: Proposal| propose_wire(p) != b@,
{
    let blen = b.len();
    let (rand, pos1) = match read_len_field(b, 0, 10u8) {
        Some(x) => x,
        None => {
            proof {
                assert forall|p: Proposal| propose_wire(p) != b@ by {
                    if propose_wire(p) == b@ {
                        lemma_propose_wire_parts(b@, p);
                    }
                }
            }
            return None;
        },
    };
    let (pk_bytes, pos2) = match read_len_field(b, pos1, 18u8) {
        Some(x) => x,
        None => {
            proof {
                assert forall|p: Proposal| propose_wire(p) != b@ by {
                    if propose_wire(p) == b@ {
                        lemma_propose_wire_parts(b@, p);
                        lemma_len_field_at_unique(b@, 0, 10u8, p.rand@, rand@);
                    }
                }
            }
            return None;
        },
    };
    let (ex_bytes, pos3) = match read_len_field(b, pos2, 26u8) {
        Some(x) => x,
        None => {
            proof {
                assert forall|p: Proposal| propose_wire(p) != b@ by {
                    if propose_wire(p) == b@ {
                        lemma_propose_wire_parts(b@, p);
                        lemma_len_field_at_unique(b@, 0, 10u8, p.rand@, rand@);
                        lemma_len_field_at_unique(
                            b@,
                            pos1 as int,
                            18u8,
                            pubkey_wire(key_type_code(p.pubkey), key_data(p.pubkey)),
                            pk_bytes@,
                        );
                    }
                }
            }
            return None;
        },
    };
    let (ci_bytes, pos4) = match read_len_field(b, pos3, 34u8) {
        Some(x) => x,
        None => {
            proof {
                assert forall|p: Proposal| propose_wire(p) != b@ by {
                    if propose_wire(p) == b@ {
                        lemma_propose_wire_parts(b@, p);
                        lemma_len_field_at_unique(b@, 0, 10u8, p.rand@, rand@);
                        lemma_len_field_at_unique(
                            b@,
                            pos1 as int,
                            18u8,
                            pubkey_wire(key_type_code(p.pubkey), key_data(p.pubkey)),
                            pk_bytes@,
                        );
                        lemma_len_field_at_unique(
                            b@,
                            pos2 as int,
                            26u8,
                            join_tokens(p.exchanges.deep_view()),
                            ex_bytes@,
                        );
                    }
                }
            }
            return None;
        },
    };
    let (ha_bytes, pos5) = match read_len_field(b, pos4, 42u8) {
        Some(x) => x,
        None => {
            proof {
                assert forall|p: Proposal| propose_wire(p) != b@ by {
                    if propose_wire(p) == b@ {
                        lemma_propose_wire_parts(b@, p);
                        lemma_len_field_at_unique(b@, 0, 10u8, p.rand@, rand@);
                        lemma_len_field_at_unique(
                            b@,
                            pos1 as int,
                            18u8,
                            pubkey_wire(key_type_code(p.pubkey), key_data(p.pubkey)),
                            pk_bytes@,
                        );
                        lemma_len_field_at_unique(
                            b@,
                            pos2 as int,
                            26u8,
                            join_tokens(p.exchanges.deep_view()),
                            ex_bytes@,
                        );
                        lemma_len_field_at_unique(
                            b@,
                            pos3 as int,
                            34u8,
                            join_tokens(p.ciphers.deep_view()),
                            ci_bytes@,
                        );
                    }
                }
            }
            return None;
        },
    };
    proof {
        assert forall|p: Proposal|
            propose_wire(p) == b@ implies p.rand@ == rand@ && pubkey_wire(
            key_type_code(p.pubkey),
            key_data(p.pubkey),
        ) == pk_bytes@ && join_tokens(p.exchanges.deep_view()) == ex_bytes@ && join_tokens(
            p.ciphers.deep_view(),
        ) == ci_bytes@ && join_tokens(p.hashes.deep_view()) == ha_bytes@ && b@.len() == pos5 by {
            lemma_propose_wire_parts(b@, p);
            lemma_len_field_at_unique(b@, 0, 10u8, p.rand@, rand@);
            lemma_len_field_at_unique(
                b@,
                pos1 as int,
                18u8,
                pubkey_wire(key_type_code(p.pubkey), key_data(p.pubkey)),
                pk_bytes@,
            );
            lemma_len_field_at_unique(
                b@,
                pos2 as int,
                26u8,
                join_tokens(p.exchanges.deep_view()),
                ex_bytes@,
            );
            lemma_len_field_at_unique(
                b@,
                pos3 as int,
                34u8,
                join_tokens(p.ciphers.deep_view()),
                ci_bytes@,
            );
            lemma_len_field_at_unique(
                b@,
                pos4 as int,
                42u8,
                join_tokens(p.hashes.deep_view()),
                ha_bytes@,
            );
        }
    }
    if pos5 != blen {
        return None;
    }
    let pubkey = match decode_pubkey(pk_bytes.as_slice()) {
        Some(pk) => pk,
        None => {
            proof {
                assert forall|p: Proposal| propose_wire(p) != b@ by {
                    if propose_wire(p) == b@ {
                        assert(key_type_code(p.pubkey) <= 2);
                        assert(!(key_type_code(p.pubkey) <= 2 && pubkey_wire(
                            key_type_code(p.pubkey),
                            key_data(p.pubkey),
                        ) == pk_bytes@));
                    }
                }
            }
            return None;
        },
    };
    let q = Proposal {
        rand,
        pubkey,
        exchanges: split_tokens(ex_bytes.as_slice()),
        ciphers: split_tokens(ci_bytes.as_slice()),
        hashes: split_tokens(ha_bytes.as_slice()),
    };
    let enc = encode_propose(&q);
    proof {
        assert forall|p: Proposal| propose_wire(p) == b@ implies propose_wire(q) == b@ by {
            assert(len_field(10u8, q.rand@) == len_field(10u8, p.rand@));
            assert(pubkey_wire(key_type_code(q.pubkey), key_data(q.pubkey)) == pk_bytes@);
            assert(len_field(26u8, join_tokens(q.exchanges.deep_view())) == len_field(
                26u8,
                join_tokens(p.exchanges.deep_view()),
            ));
            assert(len_field(34u8, join_tokens(q.ciphers.deep_view())) == len_field(
                34u8,
                join_tokens(p.ciphers.deep_view()),
            ));
            assert(len_field(42u8, join_tokens(q.hashes.deep_view())) == len_field(
                42u8,
                join_tokens(p.hashes.deep_view()),
            ));
            assert(propose_wire(q) == propose_wire(p));
        }
    }
    if bytes_eq(enc.as_slice(), b) {
        Some(q)
    } else {
        proof {
            assert forall|p: Proposal| propose_wire(p) != b@ by {
                if propose_wire(p) == b@ {
                    assert(propose_wire(q) == b@);
                    assert(enc@ == b@);
                }
            }
        }
        None
    }
}

/// An Exchange message: ephemeral public key and identity signature.
pub struct ExchangeMsg {
    pub epubkey: Vec<u8>,
    pub signature: Vec<u8>,
}

/// The exact wire bytes of an Exchange message.
pub open spec fn exchange_wire(m: ExchangeMsg) -> Seq<u8> {
    len_field(10u8, m.epubkey@) + len_field(18u8, m.signature@)
}

/// Encodes an Exchange message.
pub fn encode_exchange(m: &ExchangeMsg) -> (r: Vec<u8>)
    ensures
        r@ == exchange_wire(*m),
{
    let mut out: Vec<u8> = Vec::new();
    push_len_field(&mut out, 10u8, m.epubkey.as_slice());
    push_len_field(&mut out, 18u8, m.signature.as_slice());
    proof {
        assert(out@ =~= exchange_wire(*m));
    }
    out
}

/// Where each field of an encoded Exchange message sits.
proof fn lemma_exchange_wire_parts(b: Seq<u8>, m: ExchangeMsg)
    requires
        exchange_wire(m) == b,
    ensures
        len_field_at(b, 0, 10u8, m.epubkey@),
        len_field_at(b, len_field(10u8, m.epubkey@).len() as int, 18u8, m.signature@),
        b.len() == len_field(10u8, m.epubkey@).len() + len_field(18u8, m.signature@).len(),
{
    let lf1 = len_field(10u8, m.epubkey@);
    let lf2 = len_field(18u8, m.signature@);
    assert(b =~= lf1 + lf2);
    assert(b.subrange(0, b.len() as int) =~= b);
    lemma_concat_prefix(b, 0, lf1, lf2);
    lemma_concat_prefix(b, lf1.len() as int, lf2, Seq::<u8>::empty());
}

/// One byte string is the Exchange encoding of at most one pair of
/// ephemeral key and signature: together with the error conditions of the
/// final handshake step, this pins which variant a given message earns.
pub proof fn lemma_exchange_encoding_unique(
    b: Seq<u8>,
    e1: Seq<u8>,
    s1: Seq<u8>,
    e2: Seq<u8>,
    s2: Seq<u8>,
)
    requires
        b == len_field(10u8, e1) + len_field(18u8, s1),
        b == len_field(10u8, e2) + len_field(18u8, s2),
    ensures
        e1 == e2,
        s1 == s2,
{
    assert(b.subrange(0, b.len() as int) =~= b);
    lemma_concat_prefix(b, 0, len_field(10u8, e1), len_field(18u8, s1));
    lemma_concat_prefix(b, 0, len_field(10u8, e2), len_field(18u8, s2));
    lemma_len_field_at_unique(b, 0, 10u8, e1, e2);
    lemma_concat_prefix(b, len_field(10u8, e1).len() as int, len_field(18u8, s1), Seq::<
        u8,
    >::empty());
    lemma_concat_prefix(b, len_field(10u8, e2).len() as int, len_field(18u8, s2), Seq::<
        u8,
    >::empty());
    lemma_len_field_at_unique(b, len_field(10u8, e1).len() as int, 18u8, s1, s2);
}

/// Decodes an Exchange message strictly, as `decode_propose` does: a
/// refusal means no Exchange message encodes to the bytes.
pub fn decode_exchange(b: &[u8]) -> (r: Option<ExchangeMsg>)
    ensures
        r is Some ==> exchange_wire(r->Some_0) == b@,
        r is None ==> forall|m: ExchangeMsg| exchange_wire(m) != b@,
{
    let blen = b.len();
    let (epubkey, pos1) = match read_len_field(b, 0, 10u8) {
        Some(x) => x,
        None => {
            proof {
                assert forall|m: ExchangeMsg| exchange_wire(m) != b@ by {
                    if exchange_wire(m) == b@ {
                        lemma_exchange_wire_parts(b@, m);
                    }
                }
            }
            return None;
        },
    };
    let (signature, pos2) = match read_len_field(b, pos1, 18u8) {
        Some(x) => x,
        None => {
            proof {
                assert forall|m: ExchangeMsg| exchange_wire(m) != b@ by {
                    if exchange_wire(m) == b@ {
                        lemma_exchange_wire_parts(b@, m);
                        lemma_len_field_at_unique(b@, 0, 10u8, m.epubkey@, epubkey@);
                    }
                }
            }
            return None;
        },
    };
    if pos2 != blen {
        proof {
            assert forall|m: ExchangeMsg| exchange_wire(m) != b@ by {
                if exchange_wire(m) == b@ {
                    lemma_exchange_wire_parts(b@, m);
                    lemma_len_field_at_unique(b@, 0, 10u8, m.epubkey@, epubkey@);
                    lemma_len_field_at_unique(b@, pos1 as int, 18u8, m.signature@, signature@);
                }
            }
        }
        return None;
    }
    let m = ExchangeMsg { epubkey, signature };
    proof {
        assert(b@ =~= b@.subrange(0, pos1 as int) + b@.subrange(pos1 as int, pos2 as int));
        assert(b@.subrange(0, pos1 as int) == len_field(10u8, m.epubkey@));
        assert(b@.subrange(pos1 as int, pos2 as int) =~= b@.subrange(pos1 as int, b@.len() as int));
        assert(exchange_wire(m) == b@);
    }
    Some(m)
}

} // verus!
