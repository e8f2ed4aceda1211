//! Hashes of inspection paths and results, and the encoding of receipts.
use vstd::prelude::*;
use blake2::digest::Digest;
use vstd::utf8::encode_utf8;
use crate::codec::{append_bytes, opt_bytes_view};
use crate::proto::inspection::{
    lemma_inspection_receipt_round_trip, InspectionPath, InspectionPathResult,
    InspectionPathResultV, InspectionReceipt, InspectionReceiptV, Provenance, ProvenanceV,
};
use crate::text::{
    hex_decode, hex_of, hex_text, lemma_hex_of_shape, lemma_unhex_hex_of, push_hex, push_str, trim_0x,
    trim_start_0x, unhex,
};

verus! {

/// What Blake2b with a 32-byte output gives for `data`.
pub uninterp spec fn blake2b_256(data: Seq<u8>) -> Seq<u8>;

/// Hashes `data` with `blake2::Blake2b<U32>`, Blake2b with a 32-byte
/// output; nothing is claimed of the hash beyond that it is this function
/// of the data.
#[verifier::external_body]
fn blake2b_256_digest(data: &[u8]) -> (r: [u8; 32])
    ensures
        r@ == blake2b_256(data@),
{
    blake2::Blake2b::<blake2::digest::consts::U32>::digest(data).into()
}

impl InspectionPath {
    /// The Blake2b-256 hash of the path's protobuf encoding.
    pub fn path_hash(&self) -> (r: [u8; 32])
        ensures
            r@ == blake2b_256(self@.encode()),
    {
        let bytes = self.encode_to_vec();
        blake2b_256_digest(bytes.as_slice())
    }

    /// The path hash as `0x` and lowercase hexadecimal.
    pub fn path_hash_hex(&self) -> (r: String)
        ensures
            r@ == hex_text(blake2b_256(self@.encode())),
    {
        let h = self.path_hash();
        let mut s = String::new();
        push_str(&mut s, "0x");
        push_hex(&mut s, h.as_slice());
        proof {
            reveal_strlit("0x");
            assert(s@ =~= hex_text(blake2b_256(self@.encode())));
        }
        s
    }
}

/// The bytes that a path hash in text stands for: its leading `0x` dropped
/// and the rest read as hexadecimal; no bytes when it is not hexadecimal.
pub open spec fn path_hash_bytes(path_hash: Seq<char>) -> Seq<u8> {
    match unhex(trim_0x(path_hash)) {
        Some(b) => b,
        None => seq![],
    }
}

/// Each collector's key, in UTF-8, followed by its response signature.
pub open spec fn provenance_bytes(ps: Seq<ProvenanceV>) -> Seq<u8>
    decreases ps.len(),
{
    if ps.len() == 0 {
        seq![]
    } else {
        provenance_bytes(ps.drop_last()) + encode_utf8(ps.last().collector_key)
            + ps.last().response_signature
    }
}

/// What the result hash of a path result is taken over: the path hash's
/// bytes, the exception, and then the source collectors.
pub open spec fn result_hash_input(
    path_hash: Seq<char>,
    exception: Option<Seq<u8>>,
    sources: Seq<ProvenanceV>,
) -> Seq<u8> {
    path_hash_bytes(path_hash) + match exception {
        Some(e) => e,
        None => seq![],
    } + provenance_bytes(sources)
}

/// A path hash written as `0x` and hexadecimal stands for the bytes it was
/// written from, so the result hash starts from the path hash itself.
pub proof fn lemma_path_hash_bytes_of_hex(b: Seq<u8>)
    ensures
        path_hash_bytes(hex_text(b)) == b,
{
    lemma_hex_of_shape(b);
    lemma_unhex_hex_of(b);
    let t = hex_text(b);
    assert(t.skip(2) =~= hex_of(b));
    assert(t[0] == '0' && t[1] == 'x');
    assert(trim_0x(t) == trim_0x(hex_of(b)));
    if hex_of(b).len() >= 2 {
        assert(hex_of(b)[1] != 'x');
    }
    assert(trim_0x(hex_of(b)) == hex_of(b));
}

/// What the result hash is taken over, source by source: with no source
/// collector it is the path hash's bytes followed by the exception, and each
/// further source adds its key's UTF-8 bytes and then its response
/// signature, after everything before it.
pub proof fn lemma_result_hash_input_by_source(
    path_hash: Seq<char>,
    exception: Option<Seq<u8>>,
    sources: Seq<ProvenanceV>,
    p: ProvenanceV,
)
    ensures
        result_hash_input(path_hash, None, seq![]) == path_hash_bytes(path_hash),
        exception matches Some(e) ==> result_hash_input(path_hash, exception, seq![]) == path_hash_bytes(path_hash) + e,
        result_hash_input(path_hash, exception, sources.push(p)) == result_hash_input(path_hash, exception, sources)
            + encode_utf8(p.collector_key) + p.response_signature,
{
    assert(sources.push(p).drop_last() =~= sources);
    assert(path_hash_bytes(path_hash) + seq![] + provenance_bytes(seq![]) =~= path_hash_bytes(path_hash));
    if let Some(e) = exception {
        assert(path_hash_bytes(path_hash) + e + provenance_bytes(seq![]) =~= path_hash_bytes(path_hash) + e);
    }
    let head = path_hash_bytes(path_hash) + match exception {
        Some(e) => e,
        None => seq![],
    };
    assert(head + provenance_bytes(sources.push(p)) =~= head + provenance_bytes(sources)
        + encode_utf8(p.collector_key) + p.response_signature);
}

/// The sources' part of the hashed data is each source's key bytes and
/// then its signature, in the order of the sources: one source gives its
/// key and signature, and the part of two lists one after the other is the
/// part of the first followed by that of the second.
pub proof fn lemma_provenance_bytes_in_order(ps: Seq<ProvenanceV>, qs: Seq<ProvenanceV>, p: ProvenanceV)
    ensures
        provenance_bytes(seq![p]) == encode_utf8(p.collector_key) + p.response_signature,
        provenance_bytes(ps + qs) == provenance_bytes(ps) + provenance_bytes(qs),
    decreases qs.len(),
{
    assert(seq![p].drop_last() =~= Seq::<ProvenanceV>::empty());
    assert(provenance_bytes(Seq::<ProvenanceV>::empty()) == Seq::<u8>::empty());
    assert(provenance_bytes(seq![p]) == provenance_bytes(Seq::<ProvenanceV>::empty()) + encode_utf8(p.collector_key)
        + p.response_signature);
    assert(Seq::<u8>::empty() + encode_utf8(p.collector_key) + p.response_signature
        =~= encode_utf8(p.collector_key) + p.response_signature);
    if qs.len() == 0 {
        assert(ps + qs =~= ps);
        assert(provenance_bytes(qs) == Seq::<u8>::empty());
        assert(provenance_bytes(ps) + provenance_bytes(qs) =~= provenance_bytes(ps));
    } else {
        lemma_provenance_bytes_in_order(ps, qs.drop_last(), p);
        assert((ps + qs).drop_last() =~= ps + qs.drop_last());
        assert((ps + qs).last() == qs.last());
        assert(provenance_bytes(ps + qs) == provenance_bytes(ps + qs.drop_last())
            + encode_utf8(qs.last().collector_key) + qs.last().response_signature);
        assert(provenance_bytes(qs) == provenance_bytes(qs.drop_last())
            + encode_utf8(qs.last().collector_key) + qs.last().response_signature);
        assert(provenance_bytes(ps) + provenance_bytes(qs) =~= provenance_bytes(ps) + provenance_bytes(qs.drop_last())
            + encode_utf8(qs.last().collector_key) + qs.last().response_signature);
    }
}

impl InspectionPathResult {
    /// A path result whose `result_hash` is the Blake2b-256 hash, as `0x`
    /// and hexadecimal, of the path hash's bytes, the exception and the
    /// source collectors.
    pub fn new(
        path_hash: String,
        exception: Option<Vec<u8>>,
        source_collectors: Vec<Provenance>,
    ) -> (r: InspectionPathResult)
        ensures
            r@ == (InspectionPathResultV {
                path_hash: path_hash@,
                result_hash: hex_text(
                    blake2b_256(
                        result_hash_input(
                            path_hash@,
                            opt_bytes_view(&exception),
                            Provenance::views(source_collectors@),
                        ),
                    ),
                ),
                exception: opt_bytes_view(&exception),
                source_collectors: Provenance::views(source_collectors@),
            }),
    {
        let ghost ps = Provenance::views(source_collectors@);
        let digits = trim_start_0x(path_hash.as_str());
        let mut data: Vec<u8> = match hex_decode(digits) {
            Some(v) => v,
            None => Vec::new(),
        };
        let ghost head = data@;
        proof {
            assert(head == path_hash_bytes(path_hash@));
        }
        if let Some(exc) = &exception {
            append_bytes(&mut data, exc.as_slice());
        }
        let ghost mid = data@;
        proof {
            assert(mid =~= path_hash_bytes(path_hash@) + match opt_bytes_view(&exception) {
                Some(e) => e,
                None => seq![],
            });
        }
        let mut i: usize = 0;
        proof {
            assert(ps.take(0) =~= Seq::<ProvenanceV>::empty());
            assert(data@ =~= mid + provenance_bytes(ps.take(0)));
        }
        while i < source_collectors.len()
            invariant
                ps == Provenance::views(source_collectors@),
                ps.len() == source_collectors@.len(),
                0 <= i <= ps.len(),
                data@ == mid + provenance_bytes(ps.take(i as int)),
            decreases ps.len() - i,
        {
            let cr = &source_collectors[i];
            append_bytes(&mut data, cr.collector_key.as_str().as_bytes());
            append_bytes(&mut data, cr.response_signature.as_slice());
            proof {
                assert(ps.take(i + 1).drop_last() =~= ps.take(i as int));
                assert(ps[i as int] == cr@);
                assert(data@ =~= mid + provenance_bytes(ps.take(i + 1)));
            }
            i = i + 1;
        }
        proof {
            assert(ps.take(i as int) =~= ps);
        }
        let hash = blake2b_256_digest(data.as_slice());
        let mut result_hash = String::new();
        push_str(&mut result_hash, "0x");
        push_hex(&mut result_hash, hash.as_slice());
        proof {
            reveal_strlit("0x");
            assert(result_hash@ =~= hex_text(blake2b_256(data@)));
        }
        let r = InspectionPathResult { path_hash, result_hash, exception, source_collectors };
        proof {
            assert(r@.source_collectors =~= ps);
        }
        r
    }
}

impl InspectionReceipt {
    /// The protobuf encoding of the receipt.
    pub fn to_proto_bytes(&self) -> (r: Vec<u8>)
        ensures
            r@ == self@.encode(),
    {
        self.encode_to_vec()
    }

    /// The receipt that the bytes encode, if they encode one.
    pub fn from_proto_bytes(bytes: &[u8]) -> (r: Option<InspectionReceipt>)
        ensures
            match InspectionReceiptV::decode(bytes@) {
                Some(m) => r matches Some(x) && x@ == m,
                None => r is None,
            },
    {
        match InspectionReceipt::decode(bytes) {
            Ok(m) => Some(m),
            Err(_) => None,
        }
    }
}

/// A receipt read back from its encoding is the receipt itself.
pub proof fn lemma_receipt_bytes_round_trip(m: InspectionReceiptV)
    requires
        m.wf(),
        m.encode().len() <= u64::MAX,
    ensures
        InspectionReceiptV::decode(m.encode()) == Some(m),
{
    lemma_inspection_receipt_round_trip(m);
}

} // verus!
