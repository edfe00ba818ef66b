//! A relay stage: decode, overwrite the provenance, re-encode.
use vstd::prelude::*;

use crate::codec::{decode, decode_spec, encode, lemma_round_trip, wire, FormatError, TimingRecord, TimingRecordView};
use crate::naming::{hop_identity, hop_identity_text};

verus! {

/// The record as it leaves a stage whose identity is `identity`.
pub open spec fn relayed(v: TimingRecordView, identity: Seq<char>) -> TimingRecordView {
    TimingRecordView { msgid: v.msgid, origin_nanos: v.origin_nanos, provenance: identity }
}

/// Replaces the provenance and keeps everything else.
pub fn rewrite(rec: TimingRecord, identity: &String) -> (r: TimingRecord)
    ensures
        r@ == relayed(rec@, identity@),
{
    TimingRecord { msgid: rec.msgid, origin_nanos: rec.origin_nanos, provenance: identity.clone() }
}

/// After a record passes through a stage, decoding what it sent gives the
/// stage's identity as provenance, whatever the provenance was on input, and
/// the same `msgid` and `origin_nanos`.
pub proof fn lemma_hop_sets_provenance(v: TimingRecordView, identity: Seq<char>)
    ensures
        decode_spec(wire(relayed(v, identity))) matches Some(u) && u.provenance == identity
            && u.msgid == v.msgid && u.origin_nanos == v.origin_nanos,
{
    lemma_round_trip(relayed(v, identity));
}

/// Relay stage number `index` of the chain.
pub struct Hop {
    index: u32,
    identity: String,
}

impl Hop {
    /// Position of this stage in the chain.
    pub closed spec fn index_spec(&self) -> u32 {
        self.index
    }

    /// What this stage writes as provenance.
    pub closed spec fn identity_spec(&self) -> Seq<char> {
        self.identity@
    }

    /// The stage at position `index`, named `relay hop <index>`.
    pub fn new(index: u32) -> (h: Hop)
        ensures
            h.index_spec() == index,
            h.identity_spec() == hop_identity(index as nat),
    {
        Hop { index, identity: hop_identity_text(index) }
    }

    /// Position of this stage in the chain.
    pub fn index(&self) -> (r: u32)
        ensures
            r == self.index_spec(),
    {
        self.index
    }

    /// What this stage writes as provenance.
    pub fn identity(&self) -> (r: &String)
        ensures
            r@ == self.identity_spec(),
    {
        &self.identity
    }

    /// Handles one decoded record.
    pub fn relay(&self, rec: TimingRecord) -> (r: TimingRecord)
        ensures
            r@ == relayed(rec@, self.identity_spec()),
    {
        rewrite(rec, &self.identity)
    }

    /// Handles one encoded message: the bytes to send on, or the error when
    /// the input encodes no record.
    pub fn forward(&self, bytes: &[u8]) -> (r: Result<Vec<u8>, FormatError>)
        ensures
            match decode_spec(bytes@) {
                Some(v) => r matches Ok(out) && out@ == wire(relayed(v, self.identity_spec())),
                None => r is Err,
            },
    {
        let rec = decode(bytes)?;
        let out = self.relay(rec);
        Ok(encode(&out))
    }
}

} // verus!
