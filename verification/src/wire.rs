//! The wire format of prekey bundles.
//!
//! A bundle is a fixed sequence of fields, each written in turn with nothing
//! between them: integers as little-endian bytes, byte strings and text as a
//! little-endian 64-bit length followed by the bytes (UTF-8 for text). This is
//! the layout that bincode's default configuration gives a struct of these
//! field types.

use vstd::prelude::*;
use vstd::utf8::*;

verus! {

broadcast use vstd::utf8::encode_utf8_valid_utf8, vstd::utf8::encode_utf8_decode_utf8;

/// The four little-endian bytes of a `u32`.
pub open spec fn le_u32_bytes(x: u32) -> Seq<u8> {
    seq![x as u8, (x >> 8u32) as u8, (x >> 16u32) as u8, (x >> 24u32) as u8]
}

/// The eight little-endian bytes of a `u64`.
pub open spec fn le_u64_bytes(x: u64) -> Seq<u8> {
    seq![
        x as u8,
        (x >> 8u64) as u8,
        (x >> 16u64) as u8,
        (x >> 24u64) as u8,
        (x >> 32u64) as u8,
        (x >> 40u64) as u8,
        (x >> 48u64) as u8,
        (x >> 56u64) as u8,
    ]
}

/// The `u32` whose little-endian bytes are `b0 b1 b2 b3`.
pub open spec fn u32_from_le(b0: u8, b1: u8, b2: u8, b3: u8) -> u32 {
    (b0 as u32) | ((b1 as u32) << 8u32) | ((b2 as u32) << 16u32) | ((b3 as u32) << 24u32)
}

/// The `u64` whose little-endian bytes are `b0 .. b7`.
pub open spec fn u64_from_le(b0: u8, b1: u8, b2: u8, b3: u8, b4: u8, b5: u8, b6: u8, b7: u8) -> u64 {
    (b0 as u64) | ((b1 as u64) << 8u64) | ((b2 as u64) << 16u64) | ((b3 as u64) << 24u64)
        | ((b4 as u64) << 32u64) | ((b5 as u64) << 40u64) | ((b6 as u64) << 48u64) | ((b7
        as u64) << 56u64)
}

/// The kinds of field a bundle is made of.
pub enum WireKind {
    Text,
    Byte,
    Word,
    Blob,
}

/// One field of a bundle, as a value.
pub enum WireField {
    Text(Seq<char>),
    Byte(u8),
    Word(u32),
    Blob(Seq<u8>),
}

pub open spec fn field_kind(f: WireField) -> WireKind {
    match f {
        WireField::Text(_) => WireKind::Text,
        WireField::Byte(_) => WireKind::Byte,
        WireField::Word(_) => WireKind::Word,
        WireField::Blob(_) => WireKind::Blob,
    }
}

/// A length-prefixed byte string.
pub open spec fn blob_bytes(d: Seq<u8>) -> Seq<u8> {
    le_u64_bytes(d.len() as u64) + d
}

/// The bytes of one field.
pub open spec fn field_bytes(f: WireField) -> Seq<u8> {
    match f {
        WireField::Text(c) => blob_bytes(encode_utf8(c)),
        WireField::Byte(b) => seq![b],
        WireField::Word(w) => le_u32_bytes(w),
        WireField::Blob(d) => blob_bytes(d),
    }
}

/// A field whose length, if it has one, fits the 64-bit length prefix.
pub open spec fn field_fits(f: WireField) -> bool {
    match f {
        WireField::Text(c) => encode_utf8(c).len() <= u64::MAX,
        WireField::Blob(d) => d.len() <= u64::MAX,
        _ => true,
    }
}

/// The bytes of a sequence of fields, written one after the other.
pub open spec fn fields_bytes(fs: Seq<WireField>) -> Seq<u8>
    decreases fs.len(),
{
    if fs.len() == 0 {
        Seq::empty()
    } else {
        field_bytes(fs[0]) + fields_bytes(fs.drop_first())
    }
}

/// `fs` is a sequence of fitting fields of the kinds that `kinds` lists, in order.
pub open spec fn fits_kinds(fs: Seq<WireField>, kinds: Seq<WireKind>) -> bool {
    &&& fs.len() == kinds.len()
    &&& forall|i: int| 0 <= i < fs.len() ==> field_kind(#[trigger] fs[i]) == kinds[i]
    &&& forall|i: int| 0 <= i < fs.len() ==> field_fits(#[trigger] fs[i])
}

pub open spec fn is_prefix_of(p: Seq<u8>, s: Seq<u8>) -> bool {
    p.len() <= s.len() && s.subrange(0, p.len() as int) == p
}

/// `parsed` bytes at the start of `s` are the fields `fs`, and they end at `pos`.
pub open spec fn parsed_up_to(s: Seq<u8>, fs: Seq<WireField>, kinds: Seq<WireKind>, pos: int) -> bool {
    &&& fs.len() <= kinds.len()
    &&& fits_kinds(fs, kinds.take(fs.len() as int))
    &&& is_prefix_of(fields_bytes(fs), s)
    &&& pos == fields_bytes(fs).len()
}

pub proof fn lemma_u32_le_roundtrip(x: u32)
    ensures
        u32_from_le(x as u8, (x >> 8u32) as u8, (x >> 16u32) as u8, (x >> 24u32) as u8) == x,
{
    assert(((x as u8) as u32) | ((((x >> 8u32) as u8) as u32) << 8u32) | ((((x >> 16u32) as u8)
        as u32) << 16u32) | ((((x >> 24u32) as u8) as u32) << 24u32) == x) by (bit_vector);
}

pub proof fn lemma_u32_le_bytes_of_value(b0: u8, b1: u8, b2: u8, b3: u8)
    ensures
        le_u32_bytes(u32_from_le(b0, b1, b2, b3)) == seq![b0, b1, b2, b3],
{
    let x = u32_from_le(b0, b1, b2, b3);
    assert(x as u8 == b0 && (x >> 8u32) as u8 == b1 && (x >> 16u32) as u8 == b2 && (x
        >> 24u32) as u8 == b3) by (bit_vector)
        requires
            x == (b0 as u32) | ((b1 as u32) << 8u32) | ((b2 as u32) << 16u32) | ((b3 as u32)
                << 24u32),
    ;
    assert(le_u32_bytes(x) =~= seq![b0, b1, b2, b3]);
}

pub proof fn lemma_u64_le_roundtrip(x: u64)
    ensures
        u64_from_le(
            x as u8,
            (x >> 8u64) as u8,
            (x >> 16u64) as u8,
            (x >> 24u64) as u8,
            (x >> 32u64) as u8,
            (x >> 40u64) as u8,
            (x >> 48u64) as u8,
            (x >> 56u64) as u8,
        ) == x,
{
    assert(((x as u8) as u64) | ((((x >> 8u64) as u8) as u64) << 8u64) | ((((x >> 16u64) as u8)
        as u64) << 16u64) | ((((x >> 24u64) as u8) as u64) << 24u64) | ((((x >> 32u64) as u8)
        as u64) << 32u64) | ((((x >> 40u64) as u8) as u64) << 40u64) | ((((x >> 48u64) as u8)
        as u64) << 48u64) | ((((x >> 56u64) as u8) as u64) << 56u64) == x) by (bit_vector);
}

pub proof fn lemma_u64_le_bytes_of_value(b0: u8, b1: u8, b2: u8, b3: u8, b4: u8, b5: u8, b6: u8, b7: u8)
    ensures
        le_u64_bytes(u64_from_le(b0, b1, b2, b3, b4, b5, b6, b7)) == seq![
            b0,
            b1,
            b2,
            b3,
            b4,
            b5,
            b6,
            b7,
        ],
{
    let x = u64_from_le(b0, b1, b2, b3, b4, b5, b6, b7);
    assert(x as u8 == b0 && (x >> 8u64) as u8 == b1 && (x >> 16u64) as u8 == b2 && (x
        >> 24u64) as u8 == b3 && (x >> 32u64) as u8 == b4 && (x >> 40u64) as u8 == b5 && (x
        >> 48u64) as u8 == b6 && (x >> 56u64) as u8 == b7) by (bit_vector)
        requires
            x == (b0 as u64) | ((b1 as u64) << 8u64) | ((b2 as u64) << 16u64) | ((b3 as u64)
                << 24u64) | ((b4 as u64) << 32u64) | ((b5 as u64) << 40u64) | ((b6 as u64)
                << 48u64) | ((b7 as u64) << 56u64),
    ;
    assert(le_u64_bytes(x) =~= seq![b0, b1, b2, b3, b4, b5, b6, b7]);
}

pub proof fn lemma_le_u32_injective(x: u32, y: u32)
    requires
        le_u32_bytes(x) == le_u32_bytes(y),
    ensures
        x == y,
{
    lemma_u32_le_roundtrip(x);
    lemma_u32_le_roundtrip(y);
    let bx = le_u32_bytes(x);
    let by = le_u32_bytes(y);
    assert(bx[0] == by[0] && bx[1] == by[1] && bx[2] == by[2] && bx[3] == by[3]);
}

pub proof fn lemma_le_u64_injective(x: u64, y: u64)
    requires
        le_u64_bytes(x) == le_u64_bytes(y),
    ensures
        x == y,
{
    lemma_u64_le_roundtrip(x);
    lemma_u64_le_roundtrip(y);
    let bx = le_u64_bytes(x);
    let by = le_u64_bytes(y);
    assert(bx[0] == by[0] && bx[1] == by[1] && bx[2] == by[2] && bx[3] == by[3]);
    assert(bx[4] == by[4] && bx[5] == by[5] && bx[6] == by[6] && bx[7] == by[7]);
}

/// A prefix of `a + b` splits into a prefix `a` and, after it, a prefix `b`.
pub proof fn lemma_prefix_concat(a: Seq<u8>, b: Seq<u8>, s: Seq<u8>)
    ensures
        is_prefix_of(a + b, s) <==> (is_prefix_of(a, s) && is_prefix_of(b, s.skip(a.len() as int))),
{
    if is_prefix_of(a + b, s) {
        assert(s.subrange(0, a.len() as int) =~= (a + b).subrange(0, a.len() as int));
        assert((a + b).subrange(0, a.len() as int) =~= a);
        assert(s.skip(a.len() as int).subrange(0, b.len() as int) =~= (a + b).subrange(
            a.len() as int,
            (a + b).len() as int,
        ));
        assert((a + b).subrange(a.len() as int, (a + b).len() as int) =~= b);
    }
    if is_prefix_of(a, s) && is_prefix_of(b, s.skip(a.len() as int)) {
        assert(s.subrange(0, (a + b).len() as int) =~= a + b);
    }
}

/// Two fields of one kind that both start `s` are the same field.
pub proof fn lemma_field_prefix_unique(f1: WireField, f2: WireField, s: Seq<u8>)
    requires
        field_kind(f1) == field_kind(f2),
        field_fits(f1),
        field_fits(f2),
        is_prefix_of(field_bytes(f1), s),
        is_prefix_of(field_bytes(f2), s),
    ensures
        f1 == f2,
{
    match f1 {
        WireField::Byte(b1) => {
            let b2 = f2->Byte_0;
            assert(s[0] == field_bytes(f1)[0]);
            assert(s[0] == field_bytes(f2)[0]);
        },
        WireField::Word(w1) => {
            let w2 = f2->Word_0;
            assert(le_u32_bytes(w1) =~= s.subrange(0, 4));
            assert(le_u32_bytes(w2) =~= s.subrange(0, 4));
            lemma_le_u32_injective(w1, w2);
        },
        WireField::Blob(d1) => {
            let d2 = f2->Blob_0;
            lemma_blob_prefix_unique(d1, d2, s);
        },
        WireField::Text(c1) => {
            let c2 = f2->Text_0;
            lemma_blob_prefix_unique(encode_utf8(c1), encode_utf8(c2), s);
            assert(decode_utf8(encode_utf8(c1)) == c1);
            assert(decode_utf8(encode_utf8(c2)) == c2);
        },
    }
}

pub proof fn lemma_blob_prefix_unique(d1: Seq<u8>, d2: Seq<u8>, s: Seq<u8>)
    requires
        d1.len() <= u64::MAX,
        d2.len() <= u64::MAX,
        is_prefix_of(blob_bytes(d1), s),
        is_prefix_of(blob_bytes(d2), s),
    ensures
        d1 == d2,
{
    lemma_prefix_concat(le_u64_bytes(d1.len() as u64), d1, s);
    lemma_prefix_concat(le_u64_bytes(d2.len() as u64), d2, s);
    assert(le_u64_bytes(d1.len() as u64) =~= s.subrange(0, 8));
    assert(le_u64_bytes(d2.len() as u64) =~= s.subrange(0, 8));
    lemma_le_u64_injective(d1.len() as u64, d2.len() as u64);
    assert(d1 =~= s.skip(8).subrange(0, d1.len() as int));
    assert(d2 =~= s.skip(8).subrange(0, d2.len() as int));
}

/// The bytes of `fs` followed by one more field.
pub proof fn lemma_fields_bytes_push(fs: Seq<WireField>, f: WireField)
    ensures
        fields_bytes(fs.push(f)) == fields_bytes(fs) + field_bytes(f),
    decreases fs.len(),
{
    if fs.len() == 0 {
        assert(fs.push(f).drop_first() =~= Seq::<WireField>::empty());
        assert(fields_bytes(fs.push(f).drop_first()) == Seq::<u8>::empty());
        assert(fs.push(f)[0] == f);
        assert(fields_bytes(fs) == Seq::<u8>::empty());
        assert(fields_bytes(fs.push(f)) =~= field_bytes(f));
    } else {
        assert(fs.push(f).drop_first() =~= fs.drop_first().push(f));
        lemma_fields_bytes_push(fs.drop_first(), f);
        assert(fields_bytes(fs.push(f)) =~= fields_bytes(fs) + field_bytes(f));
    }
}

/// The bytes of `fs` split at any field boundary.
pub proof fn lemma_fields_bytes_split(fs: Seq<WireField>, i: int)
    requires
        0 <= i <= fs.len(),
    ensures
        fields_bytes(fs) == fields_bytes(fs.take(i)) + fields_bytes(fs.skip(i)),
    decreases i,
{
    if i == 0 {
        assert(fs.take(0) =~= Seq::<WireField>::empty());
        assert(fs.skip(0) =~= fs);
        assert(fields_bytes(fs) =~= fields_bytes(fs.take(i)) + fields_bytes(fs.skip(i)));
    } else {
        lemma_fields_bytes_split(fs.drop_first(), i - 1);
        assert(fs.drop_first().take(i - 1) =~= fs.take(i).drop_first());
        assert(fs.drop_first().skip(i - 1) =~= fs.skip(i));
        assert(fs.take(i)[0] == fs[0]);
        assert(fields_bytes(fs) =~= fields_bytes(fs.take(i)) + fields_bytes(fs.skip(i)));
    }
}

/// Two field sequences of the same kinds that both start `s` are the same.
pub proof fn lemma_fields_prefix_unique(fs1: Seq<WireField>, fs2: Seq<WireField>, kinds: Seq<
    WireKind,
>, s: Seq<u8>)
    requires
        fits_kinds(fs1, kinds),
        fits_kinds(fs2, kinds),
        is_prefix_of(fields_bytes(fs1), s),
        is_prefix_of(fields_bytes(fs2), s),
    ensures
        fs1 == fs2,
    decreases fs1.len(),
{
    if fs1.len() > 0 {
        lemma_prefix_concat(field_bytes(fs1[0]), fields_bytes(fs1.drop_first()), s);
        lemma_prefix_concat(field_bytes(fs2[0]), fields_bytes(fs2.drop_first()), s);
        assert(field_kind(fs1[0]) == kinds[0]);
        assert(field_kind(fs2[0]) == kinds[0]);
        assert(field_fits(fs1[0]) && field_fits(fs2[0]));
        lemma_field_prefix_unique(fs1[0], fs2[0], s);
        let rest = s.skip(field_bytes(fs1[0]).len() as int);
        assert(fits_kinds(fs1.drop_first(), kinds.drop_first())) by {
            assert forall|i: int| 0 <= i < fs1.drop_first().len() implies field_kind(
                #[trigger] fs1.drop_first()[i],
            ) == kinds.drop_first()[i] && field_fits(fs1.drop_first()[i]) by {
                assert(fs1.drop_first()[i] == fs1[i + 1]);
            }
        }
        assert(fits_kinds(fs2.drop_first(), kinds.drop_first())) by {
            assert forall|i: int| 0 <= i < fs2.drop_first().len() implies field_kind(
                #[trigger] fs2.drop_first()[i],
            ) == kinds.drop_first()[i] && field_fits(fs2.drop_first()[i]) by {
                assert(fs2.drop_first()[i] == fs2[i + 1]);
            }
        }
        lemma_fields_prefix_unique(fs1.drop_first(), fs2.drop_first(), kinds.drop_first(), rest);
        assert forall|i: int| 0 <= i < fs1.len() implies fs1[i] == fs2[i] by {
            if i > 0 {
                assert(fs1[i] == fs1.drop_first()[i - 1]);
                assert(fs2[i] == fs2.drop_first()[i - 1]);
            }
        }
        assert(fs1 =~= fs2);
    } else {
        assert(fs1 =~= fs2);
    }
}

/// One more readable field extends what has been parsed.
pub proof fn lemma_parsed_extend(s: Seq<u8>, fs: Seq<WireField>, kinds: Seq<WireKind>, pos: int, f: WireField)
    requires
        parsed_up_to(s, fs, kinds, pos),
        fs.len() < kinds.len(),
        field_kind(f) == kinds[fs.len() as int],
        field_fits(f),
        is_prefix_of(field_bytes(f), s.skip(pos)),
    ensures
        parsed_up_to(s, fs.push(f), kinds, pos + field_bytes(f).len()),
{
    lemma_fields_bytes_push(fs, f);
    lemma_prefix_concat(fields_bytes(fs), field_bytes(f), s);
    let fs2 = fs.push(f);
    let k2 = kinds.take(fs2.len() as int);
    assert forall|i: int| 0 <= i < fs2.len() implies field_kind(#[trigger] fs2[i]) == k2[i]
        && field_fits(fs2[i]) by {
        if i < fs.len() {
            assert(fs2[i] == fs[i]);
            assert(kinds.take(fs.len() as int)[i] == kinds[i]);
        }
    }
}

/// When the next field cannot be read, no sequence of the whole kind list starts `s`.
pub proof fn lemma_parsed_stuck(s: Seq<u8>, fs: Seq<WireField>, kinds: Seq<WireKind>, pos: int, all: Seq<WireField>)
    requires
        parsed_up_to(s, fs, kinds, pos),
        fs.len() < kinds.len(),
        fits_kinds(all, kinds),
        is_prefix_of(fields_bytes(all), s),
    ensures
        is_prefix_of(field_bytes(all[fs.len() as int]), s.skip(pos)),
        all[fs.len() as int] == all[fs.len() as int],
        field_kind(all[fs.len() as int]) == kinds[fs.len() as int],
        field_fits(all[fs.len() as int]),
{
    let n = fs.len() as int;
    lemma_fields_bytes_split(all, n);
    lemma_prefix_concat(fields_bytes(all.take(n)), fields_bytes(all.skip(n)), s);
    assert(fits_kinds(all.take(n), kinds.take(n))) by {
        assert forall|i: int| 0 <= i < n implies field_kind(#[trigger] all.take(n)[i]) == kinds.take(
            n,
        )[i] && field_fits(all.take(n)[i]) by {
            assert(all.take(n)[i] == all[i]);
        }
    }
    lemma_fields_prefix_unique(all.take(n), fs, kinds.take(n), s);
    assert(all.skip(n).len() > 0);
    lemma_prefix_concat(
        field_bytes(all.skip(n)[0]),
        fields_bytes(all.skip(n).drop_first()),
        s.skip(pos),
    );
    assert(all.skip(n)[0] == all[n]);
}

/// A field of kind `k` can be read at `pos` and ends at `end`.
pub open spec fn read_ok(s: Seq<u8>, pos: int, f: WireField, end: int) -> bool {
    &&& field_fits(f)
    &&& is_prefix_of(field_bytes(f), s.skip(pos))
    &&& end == pos + field_bytes(f).len()
}

/// No field of kind `k` starts at `pos`.
pub open spec fn no_field_at(s: Seq<u8>, pos: int, k: WireKind) -> bool {
    forall|f: WireField|
        field_kind(f) == k && field_fits(f) ==> !#[trigger] is_prefix_of(field_bytes(f), s.skip(pos))
}

/// `String::from_utf8` (std): it succeeds exactly when the bytes are valid UTF-8, and the
/// string then holds the characters that the bytes encode.
#[verifier::external_body]
fn string_from_utf8(bytes: Vec<u8>) -> (r: Option<String>)
    ensures
        r is Some <==> valid_utf8(bytes@),
        r matches Some(t) ==> t@ == decode_utf8(bytes@),
{
    String::from_utf8(bytes).ok()
}

/// Appends the little-endian bytes of `x`.
pub fn write_u32(out: &mut Vec<u8>, x: u32)
    ensures
        final(out)@ == old(out)@ + le_u32_bytes(x),
{
    out.push(x as u8);
    out.push((x >> 8u32) as u8);
    out.push((x >> 16u32) as u8);
    out.push((x >> 24u32) as u8);
    assert(out@ =~= old(out)@ + le_u32_bytes(x));
}

/// Appends the little-endian bytes of `x`.
pub fn write_u64(out: &mut Vec<u8>, x: u64)
    ensures
        final(out)@ == old(out)@ + le_u64_bytes(x),
{
    out.push(x as u8);
    out.push((x >> 8u64) as u8);
    out.push((x >> 16u64) as u8);
    out.push((x >> 24u64) as u8);
    out.push((x >> 32u64) as u8);
    out.push((x >> 40u64) as u8);
    out.push((x >> 48u64) as u8);
    out.push((x >> 56u64) as u8);
    assert(out@ =~= old(out)@ + le_u64_bytes(x));
}

/// Appends `d` with its length in front.
pub fn write_blob(out: &mut Vec<u8>, d: &[u8])
    ensures
        final(out)@ == old(out)@ + blob_bytes(d@),
{
    write_u64(out, d.len() as u64);
    let ghost start = out@;
    let mut i: usize = 0;
    while i < d.len()
        invariant
            i <= d@.len(),
            out@ == start + d@.subrange(0, i as int),
        decreases d@.len() - i,
    {
        out.push(d[i]);
        i = i + 1;
        assert(out@ =~= start + d@.subrange(0, i as int));
    }
    assert(d@.subrange(0, d@.len() as int) =~= d@);
    assert(out@ =~= old(out)@ + blob_bytes(d@));
}

/// Reads one byte at `pos`.
pub fn read_byte(s: &[u8], pos: usize) -> (r: Option<(u8, usize)>)
    requires
        pos <= s@.len(),
    ensures
        match r {
            Some((b, end)) => read_ok(s@, pos as int, WireField::Byte(b), end as int),
            None => no_field_at(s@, pos as int, WireKind::Byte),
        },
{
    if pos < s.len() {
        let b = s[pos];
        assert(s@.skip(pos as int).subrange(0, 1) =~= seq![b]);
        Some((b, pos + 1))
    } else {
        None
    }
}

/// Reads a little-endian `u32` at `pos`.
pub fn read_u32(s: &[u8], pos: usize) -> (r: Option<(u32, usize)>)
    requires
        pos <= s@.len(),
    ensures
        match r {
            Some((w, end)) => read_ok(s@, pos as int, WireField::Word(w), end as int),
            None => no_field_at(s@, pos as int, WireKind::Word),
        },
{
    if s.len() - pos < 4 {
        return None;
    }
    let b0 = s[pos];
    let b1 = s[pos + 1];
    let b2 = s[pos + 2];
    let b3 = s[pos + 3];
    let w: u32 = (b0 as u32) | ((b1 as u32) << 8u32) | ((b2 as u32) << 16u32) | ((b3 as u32)
        << 24u32);
    proof {
        lemma_u32_le_bytes_of_value(b0, b1, b2, b3);
        assert(s@.skip(pos as int).subrange(0, 4) =~= seq![b0, b1, b2, b3]);
    }
    Some((w, pos + 4))
}

/// Reads a little-endian `u64` at `pos`.
fn read_u64(s: &[u8], pos: usize) -> (r: Option<(u64, usize)>)
    requires
        pos <= s@.len(),
    ensures
        match r {
            Some((x, end)) => end == pos + 8 && end <= s@.len() && is_prefix_of(
                le_u64_bytes(x),
                s@.skip(pos as int),
            ),
            None => s@.len() - pos < 8,
        },
{
    if s.len() - pos < 8 {
        return None;
    }
    let b0 = s[pos];
    let b1 = s[pos + 1];
    let b2 = s[pos + 2];
    let b3 = s[pos + 3];
    let b4 = s[pos + 4];
    let b5 = s[pos + 5];
    let b6 = s[pos + 6];
    let b7 = s[pos + 7];
    let x: u64 = (b0 as u64) | ((b1 as u64) << 8u64) | ((b2 as u64) << 16u64) | ((b3 as u64)
        << 24u64) | ((b4 as u64) << 32u64) | ((b5 as u64) << 40u64) | ((b6 as u64) << 48u64) | ((
    b7 as u64) << 56u64);
    proof {
        lemma_u64_le_bytes_of_value(b0, b1, b2, b3, b4, b5, b6, b7);
        assert(s@.skip(pos as int).subrange(0, 8) =~= seq![b0, b1, b2, b3, b4, b5, b6, b7]);
    }
    Some((x, pos + 8))
}

/// Reads a length-prefixed byte string at `pos`.
pub fn read_blob(s: &[u8], pos: usize) -> (r: Option<(Vec<u8>, usize)>)
    requires
        pos <= s@.len(),
    ensures
        match r {
            Some((d, end)) => read_ok(s@, pos as int, WireField::Blob(d@), end as int),
            None => no_field_at(s@, pos as int, WireKind::Blob),
        },
{
    let (n, start) = match read_u64(s, pos) {
        Some(x) => x,
        None => {
            assert forall|f: WireField|
                field_kind(f) == WireKind::Blob && field_fits(f) implies !#[trigger] is_prefix_of(
                field_bytes(f),
                s@.skip(pos as int),
            ) by {
                assert(field_bytes(f).len() >= 8);
            }
            return None;
        },
    };
    if n > (s.len() - start) as u64 {
        assert forall|f: WireField|
            field_kind(f) == WireKind::Blob && field_fits(f) implies !#[trigger] is_prefix_of(
            field_bytes(f),
            s@.skip(pos as int),
        ) by {
            let d = f->Blob_0;
            if is_prefix_of(field_bytes(f), s@.skip(pos as int)) {
                lemma_prefix_concat(le_u64_bytes(d.len() as u64), d, s@.skip(pos as int));
                assert(le_u64_bytes(d.len() as u64) =~= s@.skip(pos as int).subrange(0, 8));
                assert(le_u64_bytes(n) =~= s@.skip(pos as int).subrange(0, 8));
                lemma_le_u64_injective(d.len() as u64, n);
            }
        }
        return None;
    }
    let end = start + n as usize;
    let mut d: Vec<u8> = Vec::new();
    let mut i: usize = start;
    while i < end
        invariant
            start <= i <= end <= s@.len(),
            d@ == s@.subrange(start as int, i as int),
        decreases end - i,
    {
        d.push(s[i]);
        i = i + 1;
        assert(d@ =~= s@.subrange(start as int, i as int));
    }
    proof {
        let rest = s@.skip(pos as int);
        assert(rest.subrange(0, (8 + n) as int) =~= le_u64_bytes(n) + d@) by {
            assert(rest.subrange(0, 8) == le_u64_bytes(n));
            assert(rest.subrange(8, (8 + n) as int) =~= d@);
        }
        assert(d@.len() == n);
        assert(field_bytes(WireField::Blob(d@)) =~= le_u64_bytes(n) + d@);
    }
    Some((d, end))
}

/// Reads length-prefixed UTF-8 text at `pos`.
pub fn read_text(s: &[u8], pos: usize) -> (r: Option<(String, usize)>)
    requires
        pos <= s@.len(),
    ensures
        match r {
            Some((t, end)) => read_ok(s@, pos as int, WireField::Text(t@), end as int),
            None => no_field_at(s@, pos as int, WireKind::Text),
        },
{
    let (d, end) = match read_blob(s, pos) {
        Some(x) => x,
        None => {
            assert forall|f: WireField|
                field_kind(f) == WireKind::Text && field_fits(f) implies !#[trigger] is_prefix_of(
                field_bytes(f),
                s@.skip(pos as int),
            ) by {
                let g = WireField::Blob(encode_utf8(f->Text_0));
                assert(field_bytes(g) == field_bytes(f));
                assert(field_kind(g) == WireKind::Blob && field_fits(g));
            }
            return None;
        },
    };
    let ghost dv = d@;
    match string_from_utf8(d) {
        Some(t) => {
            proof {
                vstd::utf8::decode_utf8_encode_utf8(dv);
                assert(field_bytes(WireField::Text(t@)) == field_bytes(WireField::Blob(dv)));
            }
            Some((t, end))
        },
        None => {
            assert forall|f: WireField|
                field_kind(f) == WireKind::Text && field_fits(f) implies !#[trigger] is_prefix_of(
                field_bytes(f),
                s@.skip(pos as int),
            ) by {
                let c = f->Text_0;
                if is_prefix_of(field_bytes(f), s@.skip(pos as int)) {
                    lemma_blob_prefix_unique(encode_utf8(c), dv, s@.skip(pos as int));
                    assert(valid_utf8(encode_utf8(c)));
                }
            }
            None
        },
    }
}

} // verus!
