//! Prekey bundles: what a peer needs to open a Signal session with us, and their
//! byte encoding.

use vstd::prelude::*;
use vstd::utf8::*;
use crate::error::LotlError;
use crate::wire;

verus! {

broadcast use vstd::utf8::encode_utf8_valid_utf8, vstd::utf8::encode_utf8_decode_utf8;

/// A prekey bundle as it travels between peers.
pub struct SerializableBundle {
    pub version: String,
    pub registration_id: u32,
    pub device_id: u8,
    pub pre_key_id: u32,
    pub pre_key_public: Vec<u8>,
    pub signed_pre_key_id: u32,
    pub signed_pre_key_public: Vec<u8>,
    pub signed_pre_key_signature: Vec<u8>,
    pub identity_key: Vec<u8>,
    pub kyber_pre_key_id: u32,
    pub kyber_pre_key_public: Vec<u8>,
    pub kyber_pre_key_signature: Vec<u8>,
}

/// The value of a bundle.
pub struct BundleView {
    pub version: Seq<char>,
    pub registration_id: u32,
    pub device_id: u8,
    pub pre_key_id: u32,
    pub pre_key_public: Seq<u8>,
    pub signed_pre_key_id: u32,
    pub signed_pre_key_public: Seq<u8>,
    pub signed_pre_key_signature: Seq<u8>,
    pub identity_key: Seq<u8>,
    pub kyber_pre_key_id: u32,
    pub kyber_pre_key_public: Seq<u8>,
    pub kyber_pre_key_signature: Seq<u8>,
}

impl View for SerializableBundle {
    type V = BundleView;

    open spec fn view(&self) -> BundleView {
        BundleView {
            version: self.version@,
            registration_id: self.registration_id,
            device_id: self.device_id,
            pre_key_id: self.pre_key_id,
            pre_key_public: self.pre_key_public@,
            signed_pre_key_id: self.signed_pre_key_id,
            signed_pre_key_public: self.signed_pre_key_public@,
            signed_pre_key_signature: self.signed_pre_key_signature@,
            identity_key: self.identity_key@,
            kyber_pre_key_id: self.kyber_pre_key_id,
            kyber_pre_key_public: self.kyber_pre_key_public@,
            kyber_pre_key_signature: self.kyber_pre_key_signature@,
        }
    }
}

/// The kinds of the bundle's fields, in wire order.
pub open spec fn bundle_kinds() -> Seq<wire::WireKind> {
    seq![
        wire::WireKind::Text,
        wire::WireKind::Word,
        wire::WireKind::Byte,
        wire::WireKind::Word,
        wire::WireKind::Blob,
        wire::WireKind::Word,
        wire::WireKind::Blob,
        wire::WireKind::Blob,
        wire::WireKind::Blob,
        wire::WireKind::Word,
        wire::WireKind::Blob,
        wire::WireKind::Blob,
    ]
}

impl BundleView {
    /// The bundle's fields, in wire order.
    pub open spec fn fields(self) -> Seq<wire::WireField> {
        seq![
            wire::WireField::Text(self.version),
            wire::WireField::Word(self.registration_id),
            wire::WireField::Byte(self.device_id),
            wire::WireField::Word(self.pre_key_id),
            wire::WireField::Blob(self.pre_key_public),
            wire::WireField::Word(self.signed_pre_key_id),
            wire::WireField::Blob(self.signed_pre_key_public),
            wire::WireField::Blob(self.signed_pre_key_signature),
            wire::WireField::Blob(self.identity_key),
            wire::WireField::Word(self.kyber_pre_key_id),
            wire::WireField::Blob(self.kyber_pre_key_public),
            wire::WireField::Blob(self.kyber_pre_key_signature),
        ]
    }

    /// Every length in the bundle fits its 64-bit prefix.
    pub open spec fn fits(self) -> bool {
        wire::fits_kinds(self.fields(), bundle_kinds())
    }

    /// The bytes of the bundle.
    pub open spec fn encoding(self) -> Seq<u8> {
        wire::fields_bytes(self.fields())
    }
}

/// The bundle whose encoding starts `bytes`, if there is one (bytes after it are ignored).
pub open spec fn parse_bundle(bytes: Seq<u8>) -> Option<BundleView> {
    if exists|b: BundleView| b.fits() && wire::is_prefix_of(b.encoding(), bytes) {
        Some(choose|b: BundleView| b.fits() && wire::is_prefix_of(b.encoding(), bytes))
    } else {
        None
    }
}

/// The text of the error that `bincode::deserialize` reports when it reads a bundle's
/// fields from `bytes` (empty when it reads them).
pub uninterp spec fn bincode_bundle_error(bytes: Seq<u8>) -> Seq<char>;

/// `bincode::deserialize` (bincode 1.x defaults: fixed-width little-endian integers,
/// trailing bytes allowed) of a bundle's fields, as the tuple of plain values they are
/// laid out as: the text of its error, or an empty string when the bytes decode. Claimed:
/// the text is the one for exactly these bytes; the decoder itself is not stated.
#[verifier::external_body]
fn bincode_error_text(bytes: &[u8]) -> (t: String)
    ensures
        t@ == bincode_bundle_error(bytes@),
{
    match bincode::deserialize::<(String, u32, u8, u32, Vec<u8>, u32, Vec<u8>, Vec<u8>, Vec<u8>, u32, Vec<u8>, Vec<u8>)>(bytes) {
        Err(e) => e.to_string(),
        Ok(_) => String::new(),
    }
}

/// The bundle version that this library writes.
pub open spec fn local_bundle_version() -> Seq<char> {
    "0.1.0"@
}

/// Bundles are told apart by their encodings.
pub proof fn lemma_bundle_encoding_unique(b1: BundleView, b2: BundleView, s: Seq<u8>)
    requires
        b1.fits(),
        b2.fits(),
        wire::is_prefix_of(b1.encoding(), s),
        wire::is_prefix_of(b2.encoding(), s),
    ensures
        b1 == b2,
{
    wire::lemma_fields_prefix_unique(b1.fields(), b2.fields(), bundle_kinds(), s);
    assert(b1.fields()[0] == b2.fields()[0]);
    assert(b1.fields()[1] == b2.fields()[1]);
    assert(b1.fields()[2] == b2.fields()[2]);
    assert(b1.fields()[3] == b2.fields()[3]);
    assert(b1.fields()[4] == b2.fields()[4]);
    assert(b1.fields()[5] == b2.fields()[5]);
    assert(b1.fields()[6] == b2.fields()[6]);
    assert(b1.fields()[7] == b2.fields()[7]);
    assert(b1.fields()[8] == b2.fields()[8]);
    assert(b1.fields()[9] == b2.fields()[9]);
    assert(b1.fields()[10] == b2.fields()[10]);
    assert(b1.fields()[11] == b2.fields()[11]);
}

/// Decoding what was encoded gives the bundle back, whatever bytes follow it.
pub proof fn lemma_parse_encoded_bundle(b: BundleView, rest: Seq<u8>)
    requires
        b.fits(),
    ensures
        parse_bundle(b.encoding() + rest) == Some(b),
{
    let s = b.encoding() + rest;
    assert(s.subrange(0, b.encoding().len() as int) =~= b.encoding());
    assert(b.fits() && wire::is_prefix_of(b.encoding(), s));
    let c = choose|c: BundleView| c.fits() && wire::is_prefix_of(c.encoding(), s);
    lemma_bundle_encoding_unique(b, c, s);
}

/// Writes a bundle in its wire format.
pub fn serialize_bundle(b: &SerializableBundle) -> (out: Vec<u8>)
    ensures
        out@ == b@.encoding(),
        b@.fits(),
{
    let vb = b.version.as_str().as_bytes();
    let _ = (vb.len(), b.pre_key_public.len(), b.signed_pre_key_public.len(),
        b.signed_pre_key_signature.len(), b.identity_key.len(), b.kyber_pre_key_public.len(),
        b.kyber_pre_key_signature.len());
    let ghost fs = b@.fields();
    assert forall|i: int| 0 <= i < fs.len() implies wire::field_kind(#[trigger] fs[i])
        == bundle_kinds()[i] && wire::field_fits(fs[i]) by {}
    let mut out: Vec<u8> = Vec::new();
    wire::write_blob(&mut out, vb);
    proof { wire::lemma_fields_bytes_push(fs.take(0), fs[0]); assert(fs.take(1) =~= fs.take(0).push(fs[0])); assert(wire::fields_bytes(fs.take(0)) =~= Seq::<u8>::empty()); }
    assert(out@ =~= wire::fields_bytes(fs.take(1)));
    wire::write_u32(&mut out, b.registration_id);
    proof { wire::lemma_fields_bytes_push(fs.take(1), fs[1]); assert(fs.take(2) =~= fs.take(1).push(fs[1])); }
    out.push(b.device_id);
    proof { wire::lemma_fields_bytes_push(fs.take(2), fs[2]); assert(fs.take(3) =~= fs.take(2).push(fs[2])); assert(wire::field_bytes(fs[2]) =~= seq![b.device_id]); }
    assert(out@ =~= wire::fields_bytes(fs.take(3)));
    wire::write_u32(&mut out, b.pre_key_id);
    proof { wire::lemma_fields_bytes_push(fs.take(3), fs[3]); assert(fs.take(4) =~= fs.take(3).push(fs[3])); }
    wire::write_blob(&mut out, b.pre_key_public.as_slice());
    proof { wire::lemma_fields_bytes_push(fs.take(4), fs[4]); assert(fs.take(5) =~= fs.take(4).push(fs[4])); }
    wire::write_u32(&mut out, b.signed_pre_key_id);
    proof { wire::lemma_fields_bytes_push(fs.take(5), fs[5]); assert(fs.take(6) =~= fs.take(5).push(fs[5])); }
    wire::write_blob(&mut out, b.signed_pre_key_public.as_slice());
    proof { wire::lemma_fields_bytes_push(fs.take(6), fs[6]); assert(fs.take(7) =~= fs.take(6).push(fs[6])); }
    wire::write_blob(&mut out, b.signed_pre_key_signature.as_slice());
    proof { wire::lemma_fields_bytes_push(fs.take(7), fs[7]); assert(fs.take(8) =~= fs.take(7).push(fs[7])); }
    wire::write_blob(&mut out, b.identity_key.as_slice());
    proof { wire::lemma_fields_bytes_push(fs.take(8), fs[8]); assert(fs.take(9) =~= fs.take(8).push(fs[8])); }
    wire::write_u32(&mut out, b.kyber_pre_key_id);
    proof { wire::lemma_fields_bytes_push(fs.take(9), fs[9]); assert(fs.take(10) =~= fs.take(9).push(fs[9])); }
    wire::write_blob(&mut out, b.kyber_pre_key_public.as_slice());
    proof { wire::lemma_fields_bytes_push(fs.take(10), fs[10]); assert(fs.take(11) =~= fs.take(10).push(fs[10])); }
    wire::write_blob(&mut out, b.kyber_pre_key_signature.as_slice());
    proof { wire::lemma_fields_bytes_push(fs.take(11), fs[11]); assert(fs.take(12) =~= fs.take(11).push(fs[11])); assert(fs.take(12) =~= fs); }
    out
}

/// The error for bytes that hold no bundle: bincode's own error for them.
fn malformed_bundle(bytes: &[u8]) -> (e: LotlError)
    ensures
        e matches LotlError::Serialization(m) && m@ == bincode_bundle_error(bytes@),
{
    LotlError::Serialization(bincode_error_text(bytes))
}

/// When the next field of a bundle cannot be read, the bytes hold no bundle.
proof fn lemma_no_bundle_when_stuck(s: Seq<u8>, acc: Seq<wire::WireField>, pos: int)
    requires
        wire::parsed_up_to(s, acc, bundle_kinds(), pos),
        acc.len() < bundle_kinds().len(),
        wire::no_field_at(s, pos, bundle_kinds()[acc.len() as int]),
    ensures
        parse_bundle(s) is None,
{
    if exists|b: BundleView| b.fits() && wire::is_prefix_of(b.encoding(), s) {
        let b = choose|b: BundleView| b.fits() && wire::is_prefix_of(b.encoding(), s);
        wire::lemma_parsed_stuck(s, acc, bundle_kinds(), pos, b.fields());
        let f = b.fields()[acc.len() as int];
        assert(!wire::is_prefix_of(wire::field_bytes(f), s.skip(pos)));
    }
}

/// Reads a bundle from the start of `bytes`; bytes after it are ignored.
pub fn deserialize_bundle(bytes: &[u8]) -> (res: Result<SerializableBundle, LotlError>)
    ensures
        match parse_bundle(bytes@) {
            Some(v) => res matches Ok(b) && b@ == v,
            None => res matches Err(LotlError::Serialization(m)) && m@ == bincode_bundle_error(bytes@),
        },
{
    let mut pos: usize = 0;
    let ghost mut acc: Seq<wire::WireField> = Seq::empty();
    proof {
        assert(bundle_kinds().take(0) =~= Seq::<wire::WireKind>::empty());
        assert(wire::fields_bytes(acc) =~= Seq::<u8>::empty());
        assert(bytes@.subrange(0, 0) =~= Seq::<u8>::empty());
    }
    let (version, next) = match wire::read_text(bytes, pos) {
        Some(x) => x,
        None => {
            proof {
                lemma_no_bundle_when_stuck(bytes@, acc, pos as int);
            }
            return Err(malformed_bundle(bytes));
        },
    };
    proof {
        wire::lemma_parsed_extend(bytes@, acc, bundle_kinds(), pos as int, wire::WireField::Text(version@));
        acc = acc.push(wire::WireField::Text(version@));
    }
    pos = next;
    let (registration_id, next) = match wire::read_u32(bytes, pos) {
        Some(x) => x,
        None => {
            proof {
                lemma_no_bundle_when_stuck(bytes@, acc, pos as int);
            }
            return Err(malformed_bundle(bytes));
        },
    };
    proof {
        wire::lemma_parsed_extend(bytes@, acc, bundle_kinds(), pos as int, wire::WireField::Word(registration_id));
        acc = acc.push(wire::WireField::Word(registration_id));
    }
    pos = next;
    let (device_id, next) = match wire::read_byte(bytes, pos) {
        Some(x) => x,
        None => {
            proof {
                lemma_no_bundle_when_stuck(bytes@, acc, pos as int);
            }
            return Err(malformed_bundle(bytes));
        },
    };
    proof {
        wire::lemma_parsed_extend(bytes@, acc, bundle_kinds(), pos as int, wire::WireField::Byte(device_id));
        acc = acc.push(wire::WireField::Byte(device_id));
    }
    pos = next;
    let (pre_key_id, next) = match wire::read_u32(bytes, pos) {
        Some(x) => x,
        None => {
            proof {
                lemma_no_bundle_when_stuck(bytes@, acc, pos as int);
            }
            return Err(malformed_bundle(bytes));
        },
    };
    proof {
        wire::lemma_parsed_extend(bytes@, acc, bundle_kinds(), pos as int, wire::WireField::Word(pre_key_id));
        acc = acc.push(wire::WireField::Word(pre_key_id));
    }
    pos = next;
    let (pre_key_public, next) = match wire::read_blob(bytes, pos) {
        Some(x) => x,
        None => {
            proof {
                lemma_no_bundle_when_stuck(bytes@, acc, pos as int);
            }
            return Err(malformed_bundle(bytes));
        },
    };
    proof {
        wire::lemma_parsed_extend(bytes@, acc, bundle_kinds(), pos as int, wire::WireField::Blob(pre_key_public@));
        acc = acc.push(wire::WireField::Blob(pre_key_public@));
    }
    pos = next;
    let (signed_pre_key_id, next) = match wire::read_u32(bytes, pos) {
        Some(x) => x,
        None => {
            proof {
                lemma_no_bundle_when_stuck(bytes@, acc, pos as int);
            }
            return Err(malformed_bundle(bytes));
        },
    };
    proof {
        wire::lemma_parsed_extend(bytes@, acc, bundle_kinds(), pos as int, wire::WireField::Word(signed_pre_key_id));
        acc = acc.push(wire::WireField::Word(signed_pre_key_id));
    }
    pos = next;
    let (signed_pre_key_public, next) = match wire::read_blob(bytes, pos) {
        Some(x) => x,
        None => {
            proof {
                lemma_no_bundle_when_stuck(bytes@, acc, pos as int);
            }
            return Err(malformed_bundle(bytes));
        },
    };
    proof {
        wire::lemma_parsed_extend(bytes@, acc, bundle_kinds(), pos as int, wire::WireField::Blob(signed_pre_key_public@));
        acc = acc.push(wire::WireField::Blob(signed_pre_key_public@));
    }
    pos = next;
    let (signed_pre_key_signature, next) = match wire::read_blob(bytes, pos) {
        Some(x) => x,
        None => {
            proof {
                lemma_no_bundle_when_stuck(bytes@, acc, pos as int);
            }
            return Err(malformed_bundle(bytes));
        },
    };
    proof {
        wire::lemma_parsed_extend(bytes@, acc, bundle_kinds(), pos as int, wire::WireField::Blob(signed_pre_key_signature@));
        acc = acc.push(wire::WireField::Blob(signed_pre_key_signature@));
    }
    pos = next;
    let (identity_key, next) = match wire::read_blob(bytes, pos) {
        Some(x) => x,
        None => {
            proof {
                lemma_no_bundle_when_stuck(bytes@, acc, pos as int);
            }
            return Err(malformed_bundle(bytes));
        },
    };
    proof {
        wire::lemma_parsed_extend(bytes@, acc, bundle_kinds(), pos as int, wire::WireField::Blob(identity_key@));
        acc = acc.push(wire::WireField::Blob(identity_key@));
    }
    pos = next;
    let (kyber_pre_key_id, next) = match wire::read_u32(bytes, pos) {
        Some(x) => x,
        None => {
            proof {
                lemma_no_bundle_when_stuck(bytes@, acc, pos as int);
            }
            return Err(malformed_bundle(bytes));
        },
    };
    proof {
        wire::lemma_parsed_extend(bytes@, acc, bundle_kinds(), pos as int, wire::WireField::Word(kyber_pre_key_id));
        acc = acc.push(wire::WireField::Word(kyber_pre_key_id));
    }
    pos = next;
    let (kyber_pre_key_public, next) = match wire::read_blob(bytes, pos) {
        Some(x) => x,
        None => {
            proof {
                lemma_no_bundle_when_stuck(bytes@, acc, pos as int);
            }
            return Err(malformed_bundle(bytes));
        },
    };
    proof {
        wire::lemma_parsed_extend(bytes@, acc, bundle_kinds(), pos as int, wire::WireField::Blob(kyber_pre_key_public@));
        acc = acc.push(wire::WireField::Blob(kyber_pre_key_public@));
    }
    pos = next;
    let (kyber_pre_key_signature, next) = match wire::read_blob(bytes, pos) {
        Some(x) => x,
        None => {
            proof {
                lemma_no_bundle_when_stuck(bytes@, acc, pos as int);
            }
            return Err(malformed_bundle(bytes));
        },
    };
    proof {
        wire::lemma_parsed_extend(bytes@, acc, bundle_kinds(), pos as int, wire::WireField::Blob(kyber_pre_key_signature@));
        acc = acc.push(wire::WireField::Blob(kyber_pre_key_signature@));
    }
    pos = next;
    let b = SerializableBundle {
        version,
        registration_id,
        device_id,
        pre_key_id,
        pre_key_public,
        signed_pre_key_id,
        signed_pre_key_public,
        signed_pre_key_signature,
        identity_key,
        kyber_pre_key_id,
        kyber_pre_key_public,
        kyber_pre_key_signature,
    };
    proof {
        assert(bundle_kinds().take(12) =~= bundle_kinds());
        assert(acc =~= b@.fields());
        assert(b@.fits());
        let c = choose|c: BundleView| c.fits() && wire::is_prefix_of(c.encoding(), bytes@);
        lemma_bundle_encoding_unique(b@, c, bytes@);
    }
    Ok(b)
}

/// The version written in a bundle, read without processing the rest of it.
pub fn bundle_version(bundle_bytes: &[u8]) -> (res: Result<String, LotlError>)
    ensures
        match parse_bundle(bundle_bytes@) {
            Some(v) => res matches Ok(t) && t@ == v.version,
            None => res matches Err(LotlError::Serialization(m)) && m@ == bincode_bundle_error(bundle_bytes@),
        },
{
    let b = deserialize_bundle(bundle_bytes)?;
    Ok(b.version)
}

/// The identity key written in a bundle.
pub fn identity_key_from_bundle(bundle_bytes: &[u8]) -> (res: Result<Vec<u8>, LotlError>)
    ensures
        match parse_bundle(bundle_bytes@) {
            Some(v) => res matches Ok(k) && k@ == v.identity_key,
            None => res matches Err(LotlError::Serialization(m)) && m@ == bincode_bundle_error(bundle_bytes@),
        },
{
    let b = deserialize_bundle(bundle_bytes)?;
    Ok(b.identity_key)
}

/// The bundle this library publishes for its own keys: it carries the library's
/// version and device 1.
pub fn local_prekey_bundle(
    registration_id: u32,
    pre_key_id: u32,
    pre_key_public: Vec<u8>,
    signed_pre_key_id: u32,
    signed_pre_key_public: Vec<u8>,
    signed_pre_key_signature: Vec<u8>,
    identity_key: Vec<u8>,
    kyber_pre_key_id: u32,
    kyber_pre_key_public: Vec<u8>,
    kyber_pre_key_signature: Vec<u8>,
) -> (b: SerializableBundle)
    ensures
        b@ == (BundleView {
            version: local_bundle_version(),
            registration_id,
            device_id: 1,
            pre_key_id,
            pre_key_public: pre_key_public@,
            signed_pre_key_id,
            signed_pre_key_public: signed_pre_key_public@,
            signed_pre_key_signature: signed_pre_key_signature@,
            identity_key: identity_key@,
            kyber_pre_key_id,
            kyber_pre_key_public: kyber_pre_key_public@,
            kyber_pre_key_signature: kyber_pre_key_signature@,
        }),
{
    SerializableBundle {
        version: crate::version().to_owned(),
        registration_id,
        device_id: 1,
        pre_key_id,
        pre_key_public,
        signed_pre_key_id,
        signed_pre_key_public,
        signed_pre_key_signature,
        identity_key,
        kyber_pre_key_id,
        kyber_pre_key_public,
        kyber_pre_key_signature,
    }
}

/// The encoded local bundle together with the ids of the three prekeys it publishes.
pub fn prekey_bundle_with_metadata(
    registration_id: u32,
    pre_key_id: u32,
    pre_key_public: Vec<u8>,
    signed_pre_key_id: u32,
    signed_pre_key_public: Vec<u8>,
    signed_pre_key_signature: Vec<u8>,
    identity_key: Vec<u8>,
    kyber_pre_key_id: u32,
    kyber_pre_key_public: Vec<u8>,
    kyber_pre_key_signature: Vec<u8>,
) -> (r: (Vec<u8>, u32, u32, u32))
    ensures
        r.0@ == (BundleView {
            version: local_bundle_version(),
            registration_id,
            device_id: 1,
            pre_key_id,
            pre_key_public: pre_key_public@,
            signed_pre_key_id,
            signed_pre_key_public: signed_pre_key_public@,
            signed_pre_key_signature: signed_pre_key_signature@,
            identity_key: identity_key@,
            kyber_pre_key_id,
            kyber_pre_key_public: kyber_pre_key_public@,
            kyber_pre_key_signature: kyber_pre_key_signature@,
        }).encoding(),
        r.1 == pre_key_id,
        r.2 == signed_pre_key_id,
        r.3 == kyber_pre_key_id,
{
    let b = local_prekey_bundle(
        registration_id,
        pre_key_id,
        pre_key_public,
        signed_pre_key_id,
        signed_pre_key_public,
        signed_pre_key_signature,
        identity_key,
        kyber_pre_key_id,
        kyber_pre_key_public,
        kyber_pre_key_signature,
    );
    let bytes = serialize_bundle(&b);
    (bytes, pre_key_id, signed_pre_key_id, kyber_pre_key_id)
}

/// A bundle this library wrote reports the library's version and the identity key
/// it was written with.
pub proof fn lemma_local_bundle_version_and_identity(b: BundleView)
    requires
        b.fits(),
        b.version == local_bundle_version(),
    ensures
        parse_bundle(b.encoding()) matches Some(v) && v.version == local_bundle_version()
            && v.identity_key == b.identity_key,
{
    assert(b.encoding() + Seq::<u8>::empty() =~= b.encoding());
    lemma_parse_encoded_bundle(b, Seq::empty());
}

} // verus!
