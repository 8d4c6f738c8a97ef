//! Length-framed transcripts and their SHA-256 digests.
//!
//! Every field of a transcript is written as its length (eight bytes, big endian)
//! followed by its bytes, so distinct field lists give distinct transcripts.
use vstd::prelude::*;
use vstd::utf8::encode_utf8;

verus! {

/// Eight big-endian bytes of a 64-bit value.
pub open spec fn be_u64(v: u64) -> Seq<u8> {
    seq![
        ((v >> 56u64) & 0xff) as u8, ((v >> 48u64) & 0xff) as u8, ((v >> 40u64) & 0xff) as u8, ((v >> 32u64) & 0xff) as u8,
        ((v >> 24u64) & 0xff) as u8, ((v >> 16u64) & 0xff) as u8, ((v >> 8u64) & 0xff) as u8, (v & 0xff) as u8,
    ]
}

/// Four big-endian bytes of a 32-bit value.
pub open spec fn be_u32(v: u32) -> Seq<u8> {
    seq![((v >> 24u32) & 0xff) as u8, ((v >> 16u32) & 0xff) as u8, ((v >> 8u32) & 0xff) as u8, (v & 0xff) as u8]
}

/// Sixteen big-endian bytes of a 128-bit identifier.
pub open spec fn be_u128(v: u128) -> Seq<u8> {
    be_u64((v >> 64u128) as u64) + be_u64((v & 0xffff_ffff_ffff_ffffu128) as u64)
}

/// A field as written into a transcript: its length, then its bytes.
pub open spec fn frame(field: Seq<u8>) -> Seq<u8> {
    be_u64(field.len() as u64) + field
}

/// The framed concatenation of a list of fields.
pub open spec fn frames(fields: Seq<Seq<u8>>) -> Seq<u8>
    decreases fields.len(),
{
    if fields.len() == 0 {
        Seq::empty()
    } else {
        frames(fields.drop_last()) + frame(fields.last())
    }
}

/// A name for SHA-256 (FIPS 180-4) of a message.
pub uninterp spec fn sha256_spec(message: Seq<u8>) -> Seq<u8>;

/// SHA-256 of a message, computed by the `sha2` crate's `Sha256::digest`. The
/// contract names the digest; that it is SHA-256 is not proved here.
#[verifier::external_body]
pub(crate) fn sha256(message: &[u8]) -> (digest: [u8; 32])
    ensures
        digest@ == sha256_spec(message@),
{
    <sha2::Sha256 as sha2::Digest>::digest(message).into()
}

pub fn be_u64_bytes(v: u64) -> (r: [u8; 8])
    ensures
        r@ == be_u64(v),
{
    let r = [
        ((v >> 56u64) & 0xff) as u8, ((v >> 48u64) & 0xff) as u8, ((v >> 40u64) & 0xff) as u8, ((v >> 32u64) & 0xff) as u8,
        ((v >> 24u64) & 0xff) as u8, ((v >> 16u64) & 0xff) as u8, ((v >> 8u64) & 0xff) as u8, (v & 0xff) as u8,
    ];
    assert(r@ =~= be_u64(v));
    r
}

pub fn be_u32_bytes(v: u32) -> (r: [u8; 4])
    ensures
        r@ == be_u32(v),
{
    let r = [((v >> 24u32) & 0xff) as u8, ((v >> 16u32) & 0xff) as u8, ((v >> 8u32) & 0xff) as u8, (v & 0xff) as u8];
    assert(r@ =~= be_u32(v));
    r
}

/// Appends raw bytes.
pub fn put_bytes(out: &mut Vec<u8>, bytes: &[u8])
    ensures
        final(out)@ == old(out)@ + bytes@,
{
    let ghost start = out@;
    let mut i: usize = 0;
    while i < bytes.len()
        invariant
            i <= bytes@.len(),
            out@ == start + bytes@.take(i as int),
        decreases bytes.len() - i,
    {
        out.push(bytes[i]);
        assert(bytes@.take(i + 1) =~= bytes@.take(i as int).push(bytes@[i as int]));
        i = i + 1;
    }
    assert(bytes@.take(i as int) =~= bytes@);
}

/// Appends one framed field.
pub fn put_field(out: &mut Vec<u8>, field: &[u8])
    ensures
        final(out)@ == old(out)@ + frame(field@),
{
    let ghost start = out@;
    let len = be_u64_bytes(field.len() as u64);
    put_bytes(out, &len);
    put_bytes(out, field);
    assert(out@ =~= start + frame(field@));
}

/// Appends a framed big-endian 32-bit value.
pub fn put_u32(out: &mut Vec<u8>, v: u32)
    ensures
        final(out)@ == old(out)@ + frame(be_u32(v)),
{
    let b = be_u32_bytes(v);
    put_field(out, &b);
}

/// Appends a framed big-endian 64-bit value.
pub fn put_u64(out: &mut Vec<u8>, v: u64)
    ensures
        final(out)@ == old(out)@ + frame(be_u64(v)),
{
    let b = be_u64_bytes(v);
    put_field(out, &b);
}

/// Appends a framed 128-bit identifier as its sixteen big-endian bytes.
pub fn put_u128(out: &mut Vec<u8>, v: u128)
    ensures
        final(out)@ == old(out)@ + frame(be_u128(v)),
{
    let hi = be_u64_bytes((v >> 64u128) as u64);
    let lo = be_u64_bytes((v & 0xffff_ffff_ffff_ffffu128) as u64);
    let mut b: Vec<u8> = Vec::new();
    put_bytes(&mut b, &hi);
    put_bytes(&mut b, &lo);
    assert(b@ =~= be_u128(v));
    put_field(out, b.as_slice());
}

/// The framed transcript of a domain and its fields.
pub open spec fn transcript(domain: Seq<u8>, fields: Seq<Seq<u8>>) -> Seq<u8> {
    frame(domain) + frames(fields)
}

/// The byte contents of a list of owned fields.
pub open spec fn field_views(fields: Seq<Vec<u8>>) -> Seq<Seq<u8>> {
    fields.map_values(|f: Vec<u8>| f@)
}

/// SHA-256 of the framed transcript of `domain` and `fields`.
pub fn framed_hash(domain: &str, fields: &Vec<Vec<u8>>) -> (digest: [u8; 32])
    ensures
        digest@ == sha256_spec(transcript(encode_utf8(domain@), field_views(fields@))),
{
    let ghost fv = field_views(fields@);
    let mut out: Vec<u8> = Vec::new();
    put_field(&mut out, domain.as_bytes());
    let ghost head = out@;
    let mut i: usize = 0;
    assert(fv.take(0) =~= Seq::<Seq<u8>>::empty());
    assert(out@ =~= head + frames(fv.take(0)));
    while i < fields.len()
        invariant
            i <= fields.len(),
            fv == field_views(fields@),
            out@ == head + frames(fv.take(i as int)),
        decreases fields.len() - i,
    {
        put_field(&mut out, fields[i].as_slice());
        assert(fv.take(i + 1).drop_last() =~= fv.take(i as int));
        assert(out@ =~= head + frames(fv.take(i + 1)));
        i = i + 1;
    }
    assert(fv.take(i as int) =~= fv);
    sha256(out.as_slice())
}

// ----- laws -----

/// Every field of the list fits a 64-bit length.
pub open spec fn lengths_fit(fields: Seq<Seq<u8>>) -> bool {
    forall|i: int| 0 <= i < fields.len() ==> (#[trigger] fields[i]).len() <= u64::MAX
}

pub(crate) proof fn lemma_be_u64_injective(a: u64, b: u64)
    requires
        be_u64(a) == be_u64(b),
    ensures
        a == b,
{
    assert(be_u64(a)[0] == be_u64(b)[0]);
    assert(be_u64(a)[1] == be_u64(b)[1]);
    assert(be_u64(a)[2] == be_u64(b)[2]);
    assert(be_u64(a)[3] == be_u64(b)[3]);
    assert(be_u64(a)[4] == be_u64(b)[4]);
    assert(be_u64(a)[5] == be_u64(b)[5]);
    assert(be_u64(a)[6] == be_u64(b)[6]);
    assert(be_u64(a)[7] == be_u64(b)[7]);
    assert(a == b) by (bit_vector)
        requires
            ((a >> 56u64) & 0xff) as u8 == ((b >> 56u64) & 0xff) as u8,
            ((a >> 48u64) & 0xff) as u8 == ((b >> 48u64) & 0xff) as u8,
            ((a >> 40u64) & 0xff) as u8 == ((b >> 40u64) & 0xff) as u8,
            ((a >> 32u64) & 0xff) as u8 == ((b >> 32u64) & 0xff) as u8,
            ((a >> 24u64) & 0xff) as u8 == ((b >> 24u64) & 0xff) as u8,
            ((a >> 16u64) & 0xff) as u8 == ((b >> 16u64) & 0xff) as u8,
            ((a >> 8u64) & 0xff) as u8 == ((b >> 8u64) & 0xff) as u8,
            (a & 0xff) as u8 == (b & 0xff) as u8,
    ;
}

proof fn lemma_frames_prepend(x: Seq<u8>, rest: Seq<Seq<u8>>)
    ensures
        frames(seq![x] + rest) == frame(x) + frames(rest),
    decreases rest.len(),
{
    let all = seq![x] + rest;
    if rest.len() == 0 {
        assert(all.drop_last() =~= Seq::<Seq<u8>>::empty());
        assert(all.last() == x);
        assert(frames(all) == frames(all.drop_last()) + frame(x));
        assert(frames(Seq::<Seq<u8>>::empty()) == Seq::<u8>::empty());
        assert(frames(rest) == Seq::<u8>::empty());
        assert(frames(all) =~= frame(x) + frames(rest));
    } else {
        assert(all.drop_last() =~= seq![x] + rest.drop_last());
        assert(all.last() == rest.last());
        lemma_frames_prepend(x, rest.drop_last());
        assert(frames(all) == frames(all.drop_last()) + frame(all.last()));
        assert(frames(rest) == frames(rest.drop_last()) + frame(rest.last()));
        assert(frames(all) =~= frame(x) + frames(rest));
    }
}

proof fn lemma_frames_len(fields: Seq<Seq<u8>>)
    ensures
        fields.len() > 0 ==> frames(fields).len() >= 8,
    decreases fields.len(),
{
    if fields.len() > 0 {
        lemma_frames_len(fields.drop_last());
    }
}

proof fn lemma_frames_injective(a: Seq<Seq<u8>>, b: Seq<Seq<u8>>)
    requires
        lengths_fit(a),
        lengths_fit(b),
        frames(a) == frames(b),
    ensures
        a == b,
    decreases a.len() + b.len(),
{
    lemma_frames_len(a);
    lemma_frames_len(b);
    if a.len() == 0 || b.len() == 0 {
        assert(a.len() == 0 && b.len() == 0);
        assert(a =~= b);
    } else {
        let x = a[0];
        let y = b[0];
        let ra = a.skip(1);
        let rb = b.skip(1);
        assert(a =~= seq![x] + ra);
        assert(b =~= seq![y] + rb);
        lemma_frames_prepend(x, ra);
        lemma_frames_prepend(y, rb);
        let fa = frames(a);
        assert(fa.subrange(0, 8) =~= be_u64(x.len() as u64));
        assert(fa.subrange(0, 8) =~= be_u64(y.len() as u64));
        lemma_be_u64_injective(x.len() as u64, y.len() as u64);
        assert(x.len() == y.len());
        assert(x =~= fa.subrange(8, 8 + x.len() as int));
        assert(y =~= fa.subrange(8, 8 + y.len() as int));
        assert(frames(ra) =~= fa.subrange(8 + x.len() as int, fa.len() as int));
        assert(frames(rb) =~= fa.subrange(8 + y.len() as int, fa.len() as int));
        assert(lengths_fit(ra)) by {
            assert forall|i: int| 0 <= i < ra.len() implies (#[trigger] ra[i]).len() <= u64::MAX by {
                assert(ra[i] == a[i + 1]);
            }
        }
        assert(lengths_fit(rb)) by {
            assert forall|i: int| 0 <= i < rb.len() implies (#[trigger] rb[i]).len() <= u64::MAX by {
                assert(rb[i] == b[i + 1]);
            }
        }
        lemma_frames_injective(ra, rb);
    }
}

/// Distinct transcripts for distinct inputs: when every field fits a 64-bit
/// length, equal transcripts have the same domain and the same fields in the
/// same order.
pub proof fn lemma_transcript_injective(d1: Seq<u8>, f1: Seq<Seq<u8>>, d2: Seq<u8>, f2: Seq<Seq<u8>>)
    requires
        d1.len() <= u64::MAX,
        d2.len() <= u64::MAX,
        lengths_fit(f1),
        lengths_fit(f2),
        transcript(d1, f1) == transcript(d2, f2),
    ensures
        d1 == d2,
        f1 == f2,
{
    lemma_frames_prepend(d1, f1);
    lemma_frames_prepend(d2, f2);
    let a = seq![d1] + f1;
    let b = seq![d2] + f2;
    assert(lengths_fit(a)) by {
        assert forall|i: int| 0 <= i < a.len() implies (#[trigger] a[i]).len() <= u64::MAX by {
            if i > 0 {
                assert(a[i] == f1[i - 1]);
            }
        }
    }
    assert(lengths_fit(b)) by {
        assert forall|i: int| 0 <= i < b.len() implies (#[trigger] b[i]).len() <= u64::MAX by {
            if i > 0 {
                assert(b[i] == f2[i - 1]);
            }
        }
    }
    lemma_frames_injective(a, b);
    assert(a[0] == b[0]);
    assert(f1 =~= a.skip(1));
    assert(f2 =~= b.skip(1));
}


pub(crate) proof fn lemma_be_u32_injective(a: u32, b: u32)
    requires
        be_u32(a) == be_u32(b),
    ensures
        a == b,
{
    assert(be_u32(a)[0] == be_u32(b)[0]);
    assert(be_u32(a)[1] == be_u32(b)[1]);
    assert(be_u32(a)[2] == be_u32(b)[2]);
    assert(be_u32(a)[3] == be_u32(b)[3]);
    assert(a == b) by (bit_vector)
        requires
            ((a >> 24u32) & 0xff) as u8 == ((b >> 24u32) & 0xff) as u8,
            ((a >> 16u32) & 0xff) as u8 == ((b >> 16u32) & 0xff) as u8,
            ((a >> 8u32) & 0xff) as u8 == ((b >> 8u32) & 0xff) as u8,
            (a & 0xff) as u8 == (b & 0xff) as u8,
    ;
}

pub(crate) proof fn lemma_be_u128_injective(a: u128, b: u128)
    requires
        be_u128(a) == be_u128(b),
    ensures
        a == b,
{
    let ha = be_u64((a >> 64u128) as u64);
    let la = be_u64((a & 0xffff_ffff_ffff_ffffu128) as u64);
    let hb = be_u64((b >> 64u128) as u64);
    let lb = be_u64((b & 0xffff_ffff_ffff_ffffu128) as u64);
    assert(ha =~= be_u128(a).subrange(0, 8));
    assert(hb =~= be_u128(b).subrange(0, 8));
    assert(la =~= be_u128(a).subrange(8, 16));
    assert(lb =~= be_u128(b).subrange(8, 16));
    lemma_be_u64_injective((a >> 64u128) as u64, (b >> 64u128) as u64);
    lemma_be_u64_injective((a & 0xffff_ffff_ffff_ffffu128) as u64, (b & 0xffff_ffff_ffff_ffffu128) as u64);
    assert(a == b) by (bit_vector)
        requires
            (a >> 64u128) as u64 == (b >> 64u128) as u64,
            (a & 0xffff_ffff_ffff_ffffu128) as u64 == (b & 0xffff_ffff_ffff_ffffu128) as u64,
    ;
}

} // verus!
