//! Compact field-tagged binary form of a timing record.
//!
//! The layout follows the compact protocol's conventions: each field starts
//! with one header byte (`delta << 4 | type`), 64-bit integers are zigzag
//! varints, strings are a varint byte length followed by UTF-8 bytes, and a
//! zero byte closes the struct.
use vstd::prelude::*;
use vstd::utf8::{decode_utf8, encode_utf8, encode_utf8_decode_utf8, encode_utf8_valid_utf8, decode_utf8_encode_utf8, valid_utf8};

verus! {

/// Header of field 1 (`msgid`, 64-bit integer).
pub const MSGID_HEADER: u8 = 0x16;

/// Header of field 2 (`origin_nanos`, 64-bit integer).
pub const ORIGIN_HEADER: u8 = 0x16;

/// Header of field 3 (`provenance`, string).
pub const PROVENANCE_HEADER: u8 = 0x18;

/// Byte that closes the struct.
pub const STOP: u8 = 0x00;

/// One timing measurement as it travels along the chain.
pub struct TimingRecord {
    /// Sequence number given by the source.
    pub msgid: i64,
    /// Nanoseconds since the sender's epoch, stamped once by the source.
    pub origin_nanos: i64,
    /// Identity of the last stage that touched the record.
    pub provenance: String,
}

/// Mathematical value of a [`TimingRecord`].
pub struct TimingRecordView {
    pub msgid: i64,
    pub origin_nanos: i64,
    pub provenance: Seq<char>,
}

impl View for TimingRecord {
    type V = TimingRecordView;

    open spec fn view(&self) -> TimingRecordView {
        TimingRecordView {
            msgid: self.msgid,
            origin_nanos: self.origin_nanos,
            provenance: self.provenance@,
        }
    }
}

/// The bytes handed to `decode` are not the encoding of any record
/// (truncated, malformed, or not valid UTF-8 in the string field).
#[derive(Debug, Clone, Copy, PartialEq, Eq)]
pub struct FormatError;

/// Zigzag mapping of a signed integer onto the naturals.
pub open spec fn zigzag(v: int) -> nat {
    if v >= 0 {
        (2 * v) as nat
    } else {
        (-2 * v - 1) as nat
    }
}

/// Little-endian base-128 encoding: seven bits per byte, high bit set on
/// every byte but the last.
pub open spec fn varint(n: nat) -> Seq<u8>
    decreases n,
{
    if n < 128 {
        seq![n as u8]
    } else {
        seq![(n % 128 + 128) as u8] + varint(n / 128)
    }
}

/// The bytes of a record on the wire.
pub open spec fn wire(v: TimingRecordView) -> Seq<u8> {
    let text = encode_utf8(v.provenance);
    seq![MSGID_HEADER] + varint(zigzag(v.msgid as int)) + seq![ORIGIN_HEADER] + varint(
        zigzag(v.origin_nanos as int),
    ) + seq![PROVENANCE_HEADER] + varint(text.len()) + text + seq![STOP]
}

/// The record that a byte string encodes, if any.
pub open spec fn decode_spec(b: Seq<u8>) -> Option<TimingRecordView> {
    if exists|v: TimingRecordView| wire(v) == b {
        Some(choose|v: TimingRecordView| wire(v) == b)
    } else {
        None
    }
}

/// `s` stands in `b` at position `pos`.
pub open spec fn occurs_at(b: Seq<u8>, pos: int, s: Seq<u8>) -> bool {
    0 <= pos && pos + s.len() <= b.len() && b.subrange(pos, pos + s.len()) == s
}

proof fn lemma_div128(lo: int, rest: int)
    requires
        0 <= lo < 128,
        rest >= 0,
    ensures
        (lo + 128 * rest) % 128 == lo,
        (lo + 128 * rest) / 128 == rest,
{
    assert((lo + 128 * rest) % 128 == lo && (lo + 128 * rest) / 128 == rest) by (nonlinear_arith)
        requires
            0 <= lo < 128,
            rest >= 0,
    ;
}

proof fn lemma_varint_len(n: nat)
    ensures
        varint(n).len() >= 1,
        varint(n)[0] < 128 <==> n < 128,
        n >= 128 ==> varint(n)[0] == n % 128 + 128,
    decreases n,
{
    if n >= 128 {
        lemma_varint_len(n / 128);
    }
}

/// A varint can be read back in one way only.
proof fn lemma_varint_unique(b: Seq<u8>, pos: int, m: nat, n: nat)
    requires
        occurs_at(b, pos, varint(m)),
        occurs_at(b, pos, varint(n)),
    ensures
        m == n,
    decreases m,
{
    lemma_varint_len(m);
    lemma_varint_len(n);
    assert(b[pos] == varint(m)[0]);
    assert(b[pos] == varint(n)[0]);
    if m >= 128 && n >= 128 {
        let vm = varint(m / 128);
        let vn = varint(n / 128);
        assert(b.subrange(pos + 1, pos + 1 + vm.len()) =~= varint(m).subrange(1, varint(m).len() as int));
        assert(varint(m).subrange(1, varint(m).len() as int) =~= vm);
        assert(b.subrange(pos + 1, pos + 1 + vn.len()) =~= varint(n).subrange(1, varint(n).len() as int));
        assert(varint(n).subrange(1, varint(n).len() as int) =~= vn);
        lemma_varint_unique(b, pos + 1, m / 128, n / 128);
        assert(m == 128 * (m / 128) + m % 128);
        assert(n == 128 * (n / 128) + n % 128);
    }
}

/// Appends the varint of `n` to `out`.
fn push_varint(out: &mut Vec<u8>, n: u64)
    ensures
        final(out)@ == old(out)@ + varint(n as nat),
{
    let mut v: u64 = n;
    while v >= 128
        invariant
            out@ + varint(v as nat) == old(out)@ + varint(n as nat),
        decreases v,
    {
        let byte: u8 = (v % 128 + 128) as u8;
        proof {
            assert(varint(v as nat) == seq![byte] + varint((v / 128) as nat));
            assert(out@.push(byte) + varint((v / 128) as nat) =~= out@ + varint(v as nat));
        }
        out.push(byte);
        v = v / 128;
    }
    proof {
        assert(out@.push(v as u8) =~= out@ + varint(v as nat));
    }
    out.push(v as u8);
}

/// Reads a varint at `pos` whose value is at most `bound`.
fn read_varint(b: &[u8], pos: usize, bound: u64) -> (r: Option<(u64, usize)>)
    requires
        pos <= b@.len(),
    ensures
        match r {
            Some((n, end)) => n <= bound && end == pos + varint(n as nat).len() && occurs_at(
                b@,
                pos as int,
                varint(n as nat),
            ),
            None => forall|n: nat| n <= bound ==> !occurs_at(b@, pos as int, #[trigger] varint(n)),
        },
    decreases b@.len() - pos,
{
    if pos >= b.len() {
        proof {
            assert forall|n: nat| n <= bound implies !occurs_at(b@, pos as int, #[trigger] varint(n)) by {
                lemma_varint_len(n);
            }
        }
        return None;
    }
    let byte = b[pos];
    if byte < 128 {
        if (byte as u64) <= bound {
            proof {
                assert(b@.subrange(pos as int, pos + 1) =~= varint(byte as nat));
            }
            return Some((byte as u64, pos + 1));
        }
        proof {
            assert forall|n: nat| n <= bound implies !occurs_at(b@, pos as int, #[trigger] varint(n)) by {
                lemma_varint_len(n);
                if occurs_at(b@, pos as int, varint(n)) {
                    assert(b@[pos as int] == varint(n)[0]);
                }
            }
        }
        return None;
    }
    let lo: u64 = (byte - 128) as u64;
    if bound < 128 + lo {
        proof {
            assert forall|n: nat| n <= bound implies !occurs_at(b@, pos as int, #[trigger] varint(n)) by {
                lemma_varint_len(n);
                if occurs_at(b@, pos as int, varint(n)) {
                    assert(b@[pos as int] == varint(n)[0]);
                }
            }
        }
        return None;
    }
    let inner_bound: u64 = (bound - lo) / 128;
    let inner = read_varint(b, pos + 1, inner_bound);
    proof {
        assert forall|n: nat| n <= bound && occurs_at(b@, pos as int, #[trigger] varint(n)) implies {
            &&& n >= 128
            &&& n % 128 == lo
            &&& n / 128 >= 1
            &&& n / 128 <= inner_bound
            &&& occurs_at(b@, pos + 1, varint(n / 128))
        } by {
            lemma_varint_len(n);
            assert(b@[pos as int] == varint(n)[0]);
            let t = varint(n / 128);
            assert(varint(n) == seq![(n % 128 + 128) as u8] + t);
            assert(b@.subrange(pos + 1, pos + 1 + t.len()) =~= varint(n).subrange(1, varint(n).len() as int));
            assert(varint(n).subrange(1, varint(n).len() as int) =~= t);
            assert(n == 128 * (n / 128) + n % 128);
        }
    }
    match inner {
        None => {
            return None;
        },
        Some((rest, end)) => {
            if rest == 0 {
                proof {
                    assert forall|n: nat| n <= bound implies !occurs_at(b@, pos as int, #[trigger] varint(n)) by {
                        if occurs_at(b@, pos as int, varint(n)) {
                            lemma_varint_unique(b@, pos + 1, (n / 128) as nat, rest as nat);
                        }
                    }
                }
                return None;
            }
            assert(128 * (rest as int) <= bound - lo) by (nonlinear_arith)
                requires
                    rest <= inner_bound,
                    inner_bound == (bound - lo) / 128,
                    bound >= lo,
            ;
            let n: u64 = lo + 128 * rest;
            proof {
                lemma_div128(lo as int, rest as int);
                let t = varint(rest as nat);
                assert(varint(n as nat) == seq![byte] + t);
                assert(b@.subrange(pos as int, end as int) =~= seq![byte] + b@.subrange(pos + 1, end as int));
            }
            return Some((n, end));
        },
    }
}

/// Zigzag code of `v`.
pub fn zigzag_encode(v: i64) -> (r: u64)
    ensures
        r as nat == zigzag(v as int),
{
    if v >= 0 {
        (v as u64) * 2
    } else {
        ((-(v + 1)) as u64) * 2 + 1
    }
}

/// The integer whose zigzag code is `z`.
pub fn zigzag_decode(z: u64) -> (r: i64)
    ensures
        zigzag(r as int) == z as nat,
{
    if z % 2 == 0 {
        (z / 2) as i64
    } else {
        -((z / 2) as i64) - 1
    }
}

proof fn lemma_zigzag_injective(a: int, b: int)
    requires
        zigzag(a) == zigzag(b),
    ensures
        a == b,
{
}

proof fn lemma_zigzag_fits(v: i64)
    ensures
        zigzag(v as int) <= u64::MAX,
{
}

/// Where each part of a record stands in its wire form.
proof fn lemma_wire_parts(v: TimingRecordView)
    ensures
        ({
            let w = wire(v);
            let a = varint(zigzag(v.msgid as int));
            let c = varint(zigzag(v.origin_nanos as int));
            let text = encode_utf8(v.provenance);
            let d = varint(text.len());
            let p1: int = 1int + a.len();
            let p2: int = p1 + 1 + c.len();
            let p3: int = p2 + 1 + d.len();
            &&& w[0] == MSGID_HEADER
            &&& occurs_at(w, 1, a)
            &&& w[p1 as int] == ORIGIN_HEADER
            &&& occurs_at(w, p1 + 1, c)
            &&& w[p2 as int] == PROVENANCE_HEADER
            &&& occurs_at(w, p2 + 1, d)
            &&& occurs_at(w, p3 as int, text)
            &&& w.len() == p3 + text.len() + 1
            &&& w[p3 + text.len()] == STOP
        }),
{
    let w = wire(v);
    let a = varint(zigzag(v.msgid as int));
    let c = varint(zigzag(v.origin_nanos as int));
    let text = encode_utf8(v.provenance);
    let d = varint(text.len());
    let p1: int = 1int + a.len();
    let p2: int = p1 + 1 + c.len();
    let p3: int = p2 + 1 + d.len();
    assert(w.subrange(1, p1 as int) =~= a);
    assert(w.subrange(p1 + 1, p2 as int) =~= c);
    assert(w.subrange(p2 + 1, p3 as int) =~= d);
    assert(w.subrange(p3 as int, p3 + text.len()) =~= text);
}

/// Two records with the same wire form are the same record.
pub proof fn lemma_wire_injective(v1: TimingRecordView, v2: TimingRecordView)
    requires
        wire(v1) == wire(v2),
    ensures
        v1 == v2,
{
    let w = wire(v1);
    lemma_wire_parts(v1);
    lemma_wire_parts(v2);
    lemma_varint_unique(w, 1, zigzag(v1.msgid as int), zigzag(v2.msgid as int));
    lemma_zigzag_injective(v1.msgid as int, v2.msgid as int);
    let p1: int = 1int + varint(zigzag(v1.msgid as int)).len();
    lemma_varint_unique(w, p1 + 1, zigzag(v1.origin_nanos as int), zigzag(v2.origin_nanos as int));
    lemma_zigzag_injective(v1.origin_nanos as int, v2.origin_nanos as int);
    let p2: int = p1 + 1 + varint(zigzag(v1.origin_nanos as int)).len();
    let t1 = encode_utf8(v1.provenance);
    let t2 = encode_utf8(v2.provenance);
    lemma_varint_unique(w, p2 + 1, t1.len(), t2.len());
    let p3: int = p2 + 1 + varint(t1.len()).len();
    assert(t1 == w.subrange(p3 as int, p3 + t1.len()));
    encode_utf8_decode_utf8(v1.provenance);
    encode_utf8_decode_utf8(v2.provenance);
}

/// Decoding the encoding of any record gives that record back.
pub proof fn lemma_round_trip(v: TimingRecordView)
    ensures
        decode_spec(wire(v)) == Some(v),
{
    let w = wire(v);
    assert(exists|u: TimingRecordView| wire(u) == w);
    let u = choose|u: TimingRecordView| wire(u) == w;
    lemma_wire_injective(u, v);
}

/// Encodes a record.
pub fn encode(r: &TimingRecord) -> (out: Vec<u8>)
    ensures
        out@ == wire(r@),
{
    let text: &[u8] = r.provenance.as_str().as_bytes();
    let mut out: Vec<u8> = Vec::new();
    out.push(MSGID_HEADER);
    push_varint(&mut out, zigzag_encode(r.msgid));
    out.push(ORIGIN_HEADER);
    push_varint(&mut out, zigzag_encode(r.origin_nanos));
    out.push(PROVENANCE_HEADER);
    push_varint(&mut out, text.len() as u64);
    let ghost before = out@;
    let mut i: usize = 0;
    while i < text.len()
        invariant
            i <= text@.len(),
            out@ == before + text@.subrange(0, i as int),
        decreases text@.len() - i,
    {
        out.push(text[i]);
        i = i + 1;
        assert(out@ =~= before + text@.subrange(0, i as int));
    }
    assert(text@.subrange(0, i as int) =~= text@);
    out.push(STOP);
    assert(out@ =~= wire(r@));
    out
}

/// Relies on `String::from_utf8`: the text is returned exactly when the bytes
/// are valid UTF-8, and it is the text those bytes encode.
#[verifier::external_body]
fn text_from_utf8(bytes: Vec<u8>) -> (r: Option<String>)
    ensures
        match r {
            Some(s) => valid_utf8(bytes@) && s@ == decode_utf8(bytes@),
            None => !valid_utf8(bytes@),
        },
{
    String::from_utf8(bytes).ok()
}

/// Decodes a record; fails exactly on bytes that encode no record.
pub fn decode(b: &[u8]) -> (r: Result<TimingRecord, FormatError>)
    ensures
        match r {
            Ok(rec) => decode_spec(b@) == Some(rec@),
            Err(_) => decode_spec(b@) is None,
        },
{
    let n = b.len();
    if n < 1 || b[0] != MSGID_HEADER {
        proof {
            assert forall|v: TimingRecordView| wire(v) != b@ by {
                lemma_wire_parts(v);
            }
        }
        return Err(FormatError);
    }
    let (z1, p1) = match read_varint(b, 1, u64::MAX) {
        Some(x) => x,
        None => {
            proof {
                assert forall|v: TimingRecordView| wire(v) != b@ by {
                    lemma_wire_parts(v);
                    lemma_zigzag_fits(v.msgid);
                }
            }
            return Err(FormatError);
        },
    };
    proof {
        assert forall|v: TimingRecordView| wire(v) == b@ implies zigzag(v.msgid as int) == z1 by {
            lemma_wire_parts(v);
            lemma_varint_unique(b@, 1, z1 as nat, zigzag(v.msgid as int));
        }
    }
    if p1 >= n || b[p1] != ORIGIN_HEADER {
        proof {
            assert forall|v: TimingRecordView| wire(v) != b@ by {
                lemma_wire_parts(v);
            }
        }
        return Err(FormatError);
    }
    let (z2, p2) = match read_varint(b, p1 + 1, u64::MAX) {
        Some(x) => x,
        None => {
            proof {
                assert forall|v: TimingRecordView| wire(v) != b@ by {
                    lemma_wire_parts(v);
                    lemma_zigzag_fits(v.origin_nanos);
                }
            }
            return Err(FormatError);
        },
    };
    proof {
        assert forall|v: TimingRecordView| wire(v) == b@ implies zigzag(v.origin_nanos as int)
            == z2 by {
            lemma_wire_parts(v);
            lemma_varint_unique(b@, p1 + 1, z2 as nat, zigzag(v.origin_nanos as int));
        }
    }
    if p2 >= n || b[p2] != PROVENANCE_HEADER {
        proof {
            assert forall|v: TimingRecordView| wire(v) != b@ by {
                lemma_wire_parts(v);
            }
        }
        return Err(FormatError);
    }
    let (len, p3) = match read_varint(b, p2 + 1, u64::MAX) {
        Some(x) => x,
        None => {
            proof {
                assert forall|v: TimingRecordView| wire(v) != b@ by {
                    lemma_wire_parts(v);
                }
            }
            return Err(FormatError);
        },
    };
    proof {
        assert forall|v: TimingRecordView| wire(v) == b@ implies encode_utf8(v.provenance).len()
            == len by {
            lemma_wire_parts(v);
            lemma_varint_unique(b@, p2 + 1, len as nat, encode_utf8(v.provenance).len());
        }
    }
    if p3 >= n || len != (n - p3 - 1) as u64 || b[n - 1] != STOP {
        proof {
            assert forall|v: TimingRecordView| wire(v) != b@ by {
                lemma_wire_parts(v);
            }
        }
        return Err(FormatError);
    }
    let text_bytes = vstd::slice::slice_to_vec(vstd::slice::slice_subrange(b, p3, n - 1));
    let text = match text_from_utf8(text_bytes) {
        Some(s) => s,
        None => {
            proof {
                assert forall|v: TimingRecordView| wire(v) != b@ by {
                    lemma_wire_parts(v);
                    encode_utf8_valid_utf8(v.provenance);
                }
            }
            return Err(FormatError);
        },
    };
    let rec = TimingRecord {
        msgid: zigzag_decode(z1),
        origin_nanos: zigzag_decode(z2),
        provenance: text,
    };
    proof {
        let t = b@.subrange(p3 as int, n - 1);
        decode_utf8_encode_utf8(t);
        assert(encode_utf8(rec.provenance@) == t);
        assert(b@ =~= seq![b@[0]] + b@.subrange(1, p1 as int) + seq![b@[p1 as int]] + b@.subrange(
            p1 + 1,
            p2 as int,
        ) + seq![b@[p2 as int]] + b@.subrange(p2 + 1, p3 as int) + t + seq![b@[n - 1]]);
        assert(b@ =~= wire(rec@));
        lemma_round_trip(rec@);
    }
    Ok(rec)
}

} // verus!
