//! The first stage: a fixed number of records, numbered from zero.
use vstd::prelude::*;
use vstd::utf8::{encode_utf8, is_ascii_chars, is_ascii_chars_encode_utf8};

use crate::codec::{TimingRecord, TimingRecordView};

verus! {

/// `n` copies of `s`, one after another.
pub open spec fn repeated(s: Seq<char>, n: nat) -> Seq<char>
    decreases n,
{
    if n == 0 {
        Seq::empty()
    } else {
        repeated(s, (n - 1) as nat) + s
    }
}

/// Relies on `str::repeat`: `n` copies of the text. It panics when the byte
/// length overflows, which `requires` leaves out.
#[verifier::external_body]
fn repeat_text(s: &str, n: usize) -> (r: String)
    requires
        n * encode_utf8(s@).len() <= isize::MAX,
    ensures
        r@ == repeated(s@, n as nat),
{
    s.repeat(n)
}

/// Provenance text of about `size` bytes, made of `publisher ` repeated.
pub fn inflated_payload(size: usize) -> (r: String)
    requires
        size <= isize::MAX,
    ensures
        r@ == repeated(seq!['p', 'u', 'b', 'l', 'i', 's', 'h', 'e', 'r', ' '], (size / 10) as nat),
{
    proof {
        reveal_strlit("publisher ");
        assert("publisher "@ =~= seq!['p', 'u', 'b', 'l', 'i', 's', 'h', 'e', 'r', ' ']);
        assert(is_ascii_chars("publisher "@));
        is_ascii_chars_encode_utf8("publisher "@);
        assert((size / 10) * 10 <= size);
    }
    repeat_text("publisher ", size / 10)
}

/// Hands out `count` records, one per call, with `msgid` 0, 1, 2, ...
pub struct Source {
    next: u64,
    count: u64,
}

impl Source {
    /// Records handed out so far.
    pub closed spec fn sent_spec(&self) -> nat {
        self.next as nat
    }

    /// Records to hand out in all.
    pub closed spec fn count_spec(&self) -> nat {
        self.count as nat
    }

    /// Never past the end, and every `msgid` fits an `i64`.
    pub closed spec fn wf(&self) -> bool {
        self.next <= self.count <= i64::MAX
    }

    /// A source of `count` records.
    pub fn new(count: u64) -> (s: Source)
        requires
            count <= i64::MAX,
        ensures
            s.wf(),
            s.sent_spec() == 0,
            s.count_spec() == count,
    {
        Source { next: 0, count }
    }

    /// Records handed out so far.
    pub fn sent(&self) -> (r: u64)
        ensures
            r == self.sent_spec(),
    {
        self.next
    }

    /// Whether every record has been handed out.
    pub fn is_done(&self) -> (r: bool)
        ensures
            r == (self.sent_spec() >= self.count_spec()),
    {
        self.next >= self.count
    }

    /// The next record, stamped with `now_nanos` and carrying `payload` as
    /// provenance, or `None` once `count` records have been handed out.
    pub fn next_record(&mut self, now_nanos: i64, payload: &String) -> (r: Option<TimingRecord>)
        requires
            old(self).wf(),
        ensures
            final(self).wf(),
            final(self).count_spec() == old(self).count_spec(),
            old(self).sent_spec() < old(self).count_spec() ==> {
                &&& r matches Some(rec) && rec@ == (TimingRecordView {
                    msgid: old(self).sent_spec() as i64,
                    origin_nanos: now_nanos,
                    provenance: payload@,
                })
                &&& final(self).sent_spec() == old(self).sent_spec() + 1
            },
            old(self).sent_spec() >= old(self).count_spec() ==> {
                &&& r is None
                &&& final(self).sent_spec() == old(self).sent_spec()
            },
    {
        if self.next >= self.count {
            return None;
        }
        let rec = TimingRecord { msgid: self.next as i64, origin_nanos: now_nanos, provenance: payload.clone() };
        self.next = self.next + 1;
        Some(rec)
    }
}

} // verus!
