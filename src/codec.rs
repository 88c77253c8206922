//! Packing a canonical map into a compressed blob, and unpacking it.
//!
//! A blob is the map's stored form encoded with bincode's standard
//! configuration, then compressed as a gzip stream at the default level.

use vstd::prelude::*;

use crate::table::{CanonicalMap, MapRep, NamesRep, rep_view, rep_wf};

verus! {

/// bincode's encoding error, carried without looking inside.
#[verifier::external_type_specification]
#[verifier::external_body]
pub struct ExEncodeError(bincode::error::EncodeError);

/// bincode's decoding error, carried without looking inside.
#[verifier::external_type_specification]
#[verifier::external_body]
pub struct ExDecodeError(bincode::error::DecodeError);

/// The I/O error that flate2's streams report, carried without looking inside.
#[verifier::external_type_specification]
#[verifier::external_body]
pub struct ExIoError(std::io::Error);

/// The bytes bincode's standard configuration writes for a value of the
/// stored form of a canonical map.
pub uninterp spec fn bincode_bytes(v: MapRep) -> Seq<u8>;

/// What bincode's `decode_from_slice`, with the standard configuration and a
/// limit of [`DECODE_LIMIT`] claimed bytes, makes of `bytes`: a value of the
/// stored form, or `None` when it fails.
pub uninterp spec fn bincode_value_of(bytes: Seq<u8>) -> Option<MapRep>;

/// The gzip stream flate2 writes for `data` at the default compression level.
pub uninterp spec fn gzip_bytes(data: Seq<u8>) -> Seq<u8>;

/// What flate2's gzip decoder makes of `data`: the decompressed bytes, or
/// `None` when it fails.
pub uninterp spec fn gunzip_of(data: Seq<u8>) -> Option<Seq<u8>>;

/// The most bytes the decoder may claim while decoding a blob; a larger claim
/// (a length prefix too large to be real, say) fails before anything is
/// allocated.
pub const DECODE_LIMIT: usize = 1 << 26;

/// An upper bound on what decoding the icons of one category claims: for
/// each pair 48 for its slot in the vector (no pair type here is larger), 8
/// for each of its two length prefixes, and the UTF-8 bytes of its two
/// strings (at most 4 per character).
pub open spec fn names_cost(ns: NamesRep) -> nat
    decreases ns.len(),
{
    if ns.len() == 0 {
        0
    } else {
        names_cost(ns.drop_last()) + 48 + 8 + 4 * ns.last().0.len() + 8 + 4 * ns.last().1.len()
    }
}

/// An upper bound on what decoding the categories of a map claims: for each
/// category 48 for its slot, 8 and the UTF-8 bytes of its label, 8 for the
/// length of its icon vector, and what its icons claim.
pub open spec fn categories_cost(r: MapRep) -> nat
    decreases r.len(),
{
    if r.len() == 0 {
        0
    } else {
        categories_cost(r.drop_last()) + 48 + 8 + 4 * r.last().0.len() + 8 + names_cost(r.last().1)
    }
}

/// An upper bound on what decoding the stored form `r` claims against the
/// decoder's limit: 8 for the outer length prefix, and its categories.
pub open spec fn decode_cost(r: MapRep) -> nat {
    8 + categories_cost(r)
}

/// The blob of a canonical map with stored form `v`.
pub open spec fn blob_of(v: MapRep) -> Seq<u8> {
    gzip_bytes(bincode_bytes(v))
}

/// What a blob holds: `None` when it does not decompress, `Some(None)` when
/// the decompressed bytes do not decode, else the decoded stored form.
pub open spec fn blob_contents(blob: Seq<u8>) -> Option<Option<MapRep>> {
    match gunzip_of(blob) {
        None => None,
        Some(g) => Some(bincode_value_of(g)),
    }
}

/// Whether decoding `blob` is owed the canonical map with stored form `v`:
/// the blob is that map's, the map is well formed and decodes within the limit.
pub open spec fn decodes(blob: Seq<u8>, v: MapRep) -> bool {
    blob == blob_of(v) && rep_wf(v) && decode_cost(v) <= DECODE_LIMIT
}

/// Relies on `bincode::encode_to_vec` with `config::standard()`: what it
/// writes for a value depends on the value alone, and writing into a `Vec`
/// does not fail.
#[verifier::external_body]
fn bincode_encode(v: &Vec<(String, Vec<(String, String)>)>) -> (r: Result<
    Vec<u8>,
    bincode::error::EncodeError,
>)
    ensures
        r is Ok,
        r matches Ok(b) ==> b@ == bincode_bytes(v.deep_view()),
{
    bincode::encode_to_vec(v, bincode::config::standard())
}

/// Relies on `bincode::decode_from_slice` with `config::standard()` limited to
/// [`DECODE_LIMIT`] claimed bytes: the outcome depends on the bytes alone; the
/// bytes written for a value decode to that value unless decoding it claims
/// more than the limit. Each length prefix claims 8 bytes, each string its
/// bytes, each vector the size of its element type per element.
#[verifier::external_body]
fn bincode_decode(bytes: &[u8]) -> (r: Result<
    (Vec<(String, Vec<(String, String)>)>, usize),
    bincode::error::DecodeError,
>)
    ensures
        r is Ok <==> bincode_value_of(bytes@) is Some,
        r matches Ok(d) ==> d.0.deep_view() == bincode_value_of(bytes@)->Some_0,
        r is Err ==> forall|v: MapRep| #[trigger]
            bincode_bytes(v) == bytes@ ==> decode_cost(v) > DECODE_LIMIT,
        r matches Ok(d) ==> forall|v: MapRep| #[trigger]
            bincode_bytes(v) == bytes@ ==> d.0.deep_view() == v,
{
    bincode::decode_from_slice(bytes, bincode::config::standard().with_limit::<DECODE_LIMIT>())
}

/// Relies on flate2's `write::GzEncoder` with `Compression::default()`: the
/// stream depends on the data alone (its header has no time stamp and a
/// fixed OS byte), and compressing into a `Vec` does not fail.
#[verifier::external_body]
fn gzip_compress(data: &[u8]) -> (r: Result<Vec<u8>, std::io::Error>)
    ensures
        r is Ok,
        r matches Ok(b) ==> b@ == gzip_bytes(data@),
{
    let mut encoder = flate2::write::GzEncoder::new(Vec::new(), flate2::Compression::default());
    std::io::Write::write_all(&mut encoder, data)?;
    encoder.finish()
}

/// Relies on flate2's `bufread::GzDecoder` read to the end: the outcome
/// depends on the data alone, and a gzip stream decompresses to the data it
/// was made from.
#[verifier::external_body]
fn gzip_decompress(data: &[u8]) -> (r: Result<Vec<u8>, std::io::Error>)
    ensures
        r is Ok <==> gunzip_of(data@) is Some,
        r matches Ok(v) ==> v@ == gunzip_of(data@)->Some_0,
        r is Err ==> forall|b: Seq<u8>| #[trigger] gzip_bytes(b) != data@,
        r matches Ok(v) ==> forall|b: Seq<u8>| #[trigger] gzip_bytes(b) == data@ ==> v@ == b,
{
    let mut decoder = flate2::bufread::GzDecoder::new(data);
    let mut out = Vec::new();
    std::io::Read::read_to_end(&mut decoder, &mut out)?;
    Ok(out)
}

/// Why a blob could not be read.
#[derive(Debug, Clone, Copy, PartialEq, Eq)]
pub enum CodecError {
    /// The blob is not a gzip stream.
    Decompress,
    /// The decompressed bytes are not a serialised map within the size limit.
    Decode,
    /// The map repeats a label or a name, or holds markup that is not well formed.
    Malformed,
}

impl CanonicalMap {
    /// The compressed blob of this map.
    pub fn encode(&self) -> (r: Vec<u8>)
        ensures
            rep_wf(self.rep()),
            r@ == blob_of(self.rep()),
    {
        let stored = self.stored();
        let bytes = match bincode_encode(stored) {
            Ok(b) => b,
            Err(_) => Vec::new(),
        };
        match gzip_compress(bytes.as_slice()) {
            Ok(b) => b,
            Err(_) => Vec::new(),
        }
    }

    /// The map that `blob` holds. Each step that fails gives its own error.
    /// A blob made by [`CanonicalMap::encode`] gives back the map it was made
    /// from, when that map decodes within [`DECODE_LIMIT`].
    pub fn decode(blob: &[u8]) -> (r: Result<CanonicalMap, CodecError>)
        ensures
            match r {
                Ok(m) => blob_contents(blob@) == Some(Some(m.rep())) && rep_wf(m.rep()),
                Err(CodecError::Decompress) => blob_contents(blob@) is None,
                Err(CodecError::Decode) => blob_contents(blob@) == Some(None::<MapRep>),
                Err(CodecError::Malformed) => blob_contents(blob@) matches Some(Some(v)) && !rep_wf(v),
            },
            forall|v: MapRep| #[trigger]
                decodes(blob@, v) ==> (r matches Ok(m) && m.rep() == v && m@ == rep_view(v)),
    {
        let bytes = match gzip_decompress(blob) {
            Ok(b) => b,
            Err(_) => return Err(CodecError::Decompress),
        };
        let stored = match bincode_decode(bytes.as_slice()) {
            Ok((s, _)) => s,
            Err(_) => {
                assert forall|v: MapRep| #[trigger] decodes(blob@, v) implies false by {
                    assert(gzip_bytes(bincode_bytes(v)) == blob@);
                    assert(bincode_bytes(v) == bytes@);
                }
                return Err(CodecError::Decode);
            },
        };
        let ghost sv = stored.deep_view();
        match CanonicalMap::from_categories(stored) {
            Some(m) => Ok(m),
            None => {
                assert forall|v: MapRep| #[trigger] decodes(blob@, v) implies false by {
                    assert(gzip_bytes(bincode_bytes(v)) == blob@);
                    assert(bincode_bytes(v) == bytes@);
                    assert(sv == v);
                }
                Err(CodecError::Malformed)
            },
        }
    }
}

/// Decoding the blob of a well-formed canonical map gives back that map,
/// every category, empty ones included, with the same names and markup, for
/// every map that decodes within [`DECODE_LIMIT`].
pub proof fn lemma_round_trip(v: MapRep)
    requires
        rep_wf(v),
        decode_cost(v) <= DECODE_LIMIT,
    ensures
        decodes(blob_of(v), v),
{
}

} // verus!
