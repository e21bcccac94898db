//! The expiry-aware credential cache.
//!
//! The cache is one file holding one serialized record.  This module
//! decides what that content means: a record is usable only when the
//! content parses and the record's expiry lies strictly in the future.
//! A missing file, malformed content and an expired record all collapse
//! into the same non-fatal outcome, "no usable cache", so that a bad
//! cache can never block a resolution that could refresh it.

use vstd::prelude::*;

use crate::codec;
use crate::codec::spec_encode;
use crate::codec::spec_parse_record;
use crate::credentials::CachedCredentialRecord;
use crate::credentials::RecordView;

verus! {

/// The content handed in by whoever read the cache file; `None` stands
/// for a file that does not exist or could not be read.
pub open spec fn spec_content(content: Option<Vec<u8>>) -> Option<Seq<u8>> {
    match content {
        Some(bytes) => Some(bytes@),
        None => None,
    }
}

/// What loading the given content at time `now` yields: the record, when
/// the content is exactly the encoding of a well-formed record whose
/// expiry is strictly in the future; nothing in every other case.
pub open spec fn spec_load(content: Option<Seq<u8>>, now: u64) -> Option<RecordView> {
    match content {
        None => None,
        Some(s) => match spec_parse_record(s) {
            None => None,
            Some(v) => if v.wf() && v.expiration > now {
                Some(v)
            } else {
                None
            },
        },
    }
}

/// Reads a usable record out of the cache content, comparing its expiry
/// against `now` (seconds since the epoch).  Corruption and staleness are
/// deliberately not errors: both yield `None`.
pub fn load(content: Option<Vec<u8>>, now: u64) -> (r: Option<CachedCredentialRecord>)
    ensures
        match r {
            Some(rec) => spec_load(spec_content(content), now) == Some(rec@) && rec.wf()
                && rec.fresh_at(now),
            None => spec_load(spec_content(content), now) is None,
        },
{
    match content {
        None => None,
        Some(bytes) => match codec::parse_record(&bytes) {
            None => None,
            Some(rec) => {
                if rec.access_key_id.len() > 0 && rec.secret_access_key.len() > 0
                    && rec.session_token.len() > 0 && rec.expiration > now {
                    Some(rec)
                } else {
                    None
                }
            },
        },
    }
}

/// Computes the serialized form of `record`: the bytes that must fully
/// replace the cache file's content when the record is persisted.  The
/// write itself is the caller's concern, and a failed write is treated as
/// non-fatal by the resolver.
pub fn store_bytes(record: &CachedCredentialRecord) -> (out: Vec<u8>)
    ensures
        out@ == spec_encode(record@),
{
    codec::encode_record(record)
}

// --- laws ------------------------------------------------------------------

/// Store → load round trip: a well-formed record whose expiry is strictly
/// in the future is loaded back unchanged from exactly the bytes that
/// storing it wrote.
pub proof fn lemma_store_load_round_trip(v: RecordView, now: u64)
    requires
        v.wf(),
        v.expiration > now,
    ensures
        spec_load(Some(spec_encode(v)), now) == Some(v),
{
    codec::lemma_parse_encode_round_trip(v);
}

/// A record whose expiry is at or before `now` is never loaded, however
/// valid its stored content is.
pub proof fn lemma_expired_not_loaded(v: RecordView, now: u64)
    requires
        v.expiration <= now,
    ensures
        spec_load(Some(spec_encode(v)), now) is None,
{
    codec::lemma_parse_encode_round_trip(v);
}

/// Malformed content — anything that is not byte-for-byte the encoding
/// of some record — loads as nothing, and loading never fails the caller:
/// its only outcomes are a record or `None`.
pub proof fn lemma_malformed_not_loaded(s: Seq<u8>, now: u64)
    requires
        forall|v: RecordView| s != spec_encode(v),
    ensures
        spec_load(Some(s), now) is None,
{
    if spec_parse_record(s) is Some {
        let v = spec_parse_record(s).unwrap();
        codec::lemma_parse_record_sound(s, v);
        assert(s == spec_encode(v));
        assert(false);
    }
}

/// Whatever the content, anything loaded is well formed and strictly
/// fresh at the load time.
pub proof fn lemma_loaded_is_fresh(content: Option<Seq<u8>>, now: u64)
    ensures
        spec_load(content, now) matches Some(v) ==> v.wf() && v.expiration > now,
{
}

} // verus!
