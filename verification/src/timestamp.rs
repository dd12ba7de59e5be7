//! Tagged latency events and the append-only recorder that collects them.
//!
//! Each measured region of the ring protocol (the cursor wait and the payload
//! copy, on either side) is bracketed by a `*Start`/`*End` pair of entries, so
//! a post-hoc analysis can split wait latency from transfer latency and
//! attribute either to the producer or the consumer domain.

use vstd::prelude::*;

verus! {

/// Which measured region an entry brackets, and which end of it.
#[derive(Copy, Clone, Debug, PartialEq, Eq, Structural)]
pub enum TimestampTag {
    ReadSyncStart,
    ReadSyncEnd,
    ReadStart,
    ReadEnd,
    WriteSyncStart,
    WriteSyncEnd,
    WriteStart,
    WriteEnd,
}

/// Wire code of a tag: the first byte of its 18-byte record.
pub open spec fn tag_code(tag: TimestampTag) -> u8 {
    match tag {
        TimestampTag::ReadSyncStart => 0,
        TimestampTag::ReadSyncEnd => 1,
        TimestampTag::ReadStart => 2,
        TimestampTag::ReadEnd => 3,
        TimestampTag::WriteSyncStart => 4,
        TimestampTag::WriteSyncEnd => 5,
        TimestampTag::WriteStart => 6,
        TimestampTag::WriteEnd => 7,
    }
}

/// Tag denoted by a wire code below 8; inverse of `tag_code`.
pub open spec fn tag_of_code(code: u8) -> TimestampTag
    recommends
        code < 8,
{
    if code == 0 {
        TimestampTag::ReadSyncStart
    } else if code == 1 {
        TimestampTag::ReadSyncEnd
    } else if code == 2 {
        TimestampTag::ReadStart
    } else if code == 3 {
        TimestampTag::ReadEnd
    } else if code == 4 {
        TimestampTag::WriteSyncStart
    } else if code == 5 {
        TimestampTag::WriteSyncEnd
    } else if code == 6 {
        TimestampTag::WriteStart
    } else {
        TimestampTag::WriteEnd
    }
}

impl TimestampTag {
    /// Wire code of this tag.
    pub fn to_byte(self) -> (code: u8)
        ensures
            code == tag_code(self),
            code < 8,
    {
        match self {
            TimestampTag::ReadSyncStart => 0,
            TimestampTag::ReadSyncEnd => 1,
            TimestampTag::ReadStart => 2,
            TimestampTag::ReadEnd => 3,
            TimestampTag::WriteSyncStart => 4,
            TimestampTag::WriteSyncEnd => 5,
            TimestampTag::WriteStart => 6,
            TimestampTag::WriteEnd => 7,
        }
    }

    /// The tag's name.
    pub fn name(self) -> (s: &'static str)
        ensures
            s@ == spec_tag_name(self),
    {
        match self {
            TimestampTag::ReadSyncStart => "ReadSyncStart",
            TimestampTag::ReadSyncEnd => "ReadSyncEnd",
            TimestampTag::ReadStart => "ReadStart",
            TimestampTag::ReadEnd => "ReadEnd",
            TimestampTag::WriteSyncStart => "WriteSyncStart",
            TimestampTag::WriteSyncEnd => "WriteSyncEnd",
            TimestampTag::WriteStart => "WriteStart",
            TimestampTag::WriteEnd => "WriteEnd",
        }
    }

    /// Tag denoted by a wire code, or `None` for a code outside `0..8`.
    pub fn from_byte(code: u8) -> (tag: Option<TimestampTag>)
        ensures
            code < 8 <==> tag is Some,
            code < 8 ==> tag == Some(tag_of_code(code)),
    {
        match code {
            0 => Some(TimestampTag::ReadSyncStart),
            1 => Some(TimestampTag::ReadSyncEnd),
            2 => Some(TimestampTag::ReadStart),
            3 => Some(TimestampTag::ReadEnd),
            4 => Some(TimestampTag::WriteSyncStart),
            5 => Some(TimestampTag::WriteSyncEnd),
            6 => Some(TimestampTag::WriteStart),
            7 => Some(TimestampTag::WriteEnd),
            _ => None,
        }
    }
}

/// The characters of a tag's name.
pub open spec fn spec_tag_name(tag: TimestampTag) -> Seq<char> {
    match tag {
        TimestampTag::ReadSyncStart => "ReadSyncStart"@,
        TimestampTag::ReadSyncEnd => "ReadSyncEnd"@,
        TimestampTag::ReadStart => "ReadStart"@,
        TimestampTag::ReadEnd => "ReadEnd"@,
        TimestampTag::WriteSyncStart => "WriteSyncStart"@,
        TimestampTag::WriteSyncEnd => "WriteSyncEnd"@,
        TimestampTag::WriteStart => "WriteStart"@,
        TimestampTag::WriteEnd => "WriteEnd"@,
    }
}

/// Round trip of the tag wire code.
pub proof fn lemma_tag_code_round_trip(tag: TimestampTag)
    ensures
        tag_code(tag) < 8,
        tag_of_code(tag_code(tag)) == tag,
{
}

/// One tagged latency event: which region it brackets (`tag`), which domain
/// recorded it (`ku`: true for the producer/kernel domain, false for the
/// consumer/user domain), the ordinal of the message it belongs to
/// (`ticker`), and the clock reading in nanoseconds (`time`).
#[derive(Copy, Clone, Debug, PartialEq, Eq, Structural)]
pub struct Timestamp {
    pub tag: TimestampTag,
    pub ku: bool,
    pub ticker: u64,
    pub time: u64,
}

#[verifier::external_type_specification]
#[verifier::external_body]
pub struct ExSystemTime(std::time::SystemTime);

/// Relies on std::time::SystemTime::now: the current clock reading.
#[verifier::external_body]
fn system_now() -> std::time::SystemTime {
    std::time::SystemTime::now()
}

/// Relies on std::time::SystemTime::duration_since: the span from the Unix
/// epoch to the given reading, converted to whole nanoseconds (zero for a
/// reading before the epoch, truncated to 64 bits).
#[verifier::external_body]
fn nanos_since_epoch(t: &std::time::SystemTime) -> u64 {
    match t.duration_since(std::time::UNIX_EPOCH) {
        Ok(d) => d.as_nanos() as u64,
        Err(_) => 0,
    }
}

/// The 18-byte wire record of an entry: tag code, origin flag, then the
/// ordinal and the clock reading as little-endian 64-bit words.
pub open spec fn spec_timestamp_bytes(ts: Timestamp) -> Seq<u8> {
    seq![tag_code(ts.tag), if ts.ku { 1u8 } else { 0u8 }]
        + vstd::bytes::spec_u64_to_le_bytes(ts.ticker)
        + vstd::bytes::spec_u64_to_le_bytes(ts.time)
}

/// The entry denoted by one 18-byte wire record; inverse of
/// `spec_timestamp_bytes` on records with a tag code below 8.
pub open spec fn spec_timestamp_of(bytes: Seq<u8>) -> Timestamp
    recommends
        bytes.len() == 18,
{
    Timestamp {
        tag: tag_of_code(bytes[0]),
        ku: bytes[1] != 0,
        ticker: vstd::bytes::spec_u64_from_le_bytes(bytes.subrange(2, 10)),
        time: vstd::bytes::spec_u64_from_le_bytes(bytes.subrange(10, 18)),
    }
}

impl Timestamp {
    /// A consumer-domain entry for the given region and message ordinal,
    /// stamped with the current clock reading.
    pub fn new(tag: TimestampTag, ticker: u64) -> (ts: Timestamp)
        ensures
            ts.tag == tag,
            !ts.ku,
            ts.ticker == ticker,
    {
        let now = system_now();
        Timestamp { tag, ku: false, ticker, time: nanos_since_epoch(&now) }
    }

    /// Like `new`, but recorded in the named domain (`ku` true for the
    /// producer domain).
    pub fn new_in_domain(tag: TimestampTag, ku: bool, ticker: u64) -> (ts: Timestamp)
        ensures
            ts.tag == tag,
            ts.ku == ku,
            ts.ticker == ticker,
    {
        let now = system_now();
        Timestamp { tag, ku, ticker, time: nanos_since_epoch(&now) }
    }

    /// This entry's 18-byte wire record.
    pub fn generate_bytes(&self) -> (raw: [u8; 18])
        ensures
            raw@ == spec_timestamp_bytes(*self),
    {
        let tb = self.tag.to_byte();
        let kb: u8 = if self.ku {
            1
        } else {
            0
        };
        let tk = vstd::bytes::u64_to_le_bytes(self.ticker);
        let tm = vstd::bytes::u64_to_le_bytes(self.time);
        let raw =
            [
            tb,
            kb,
            tk[0],
            tk[1],
            tk[2],
            tk[3],
            tk[4],
            tk[5],
            tk[6],
            tk[7],
            tm[0],
            tm[1],
            tm[2],
            tm[3],
            tm[4],
            tm[5],
            tm[6],
            tm[7],
        ];
        proof {
            assert(raw@ =~= spec_timestamp_bytes(*self));
        }
        raw
    }

    /// This entry's 18-byte wire record (the producer-side name for the same
    /// encoding).
    pub fn into_raw(&self) -> (raw: [u8; 18])
        ensures
            raw@ == spec_timestamp_bytes(*self),
    {
        self.generate_bytes()
    }

    /// The entry as a report line: tag name, recording domain, ordinal and
    /// clock reading, separated by single spaces.
    pub fn to_string(&self) -> (r: String)
        ensures
            r@ == spec_tag_name(self.tag) + " "@ + (if self.ku {
                "kernel"@
            } else {
                "user"@
            }) + " "@ + crate::text::decimal_chars(self.ticker as nat) + " "@
                + crate::text::decimal_chars(self.time as nat),
    {
        let mut r = String::new();
        r.append(self.tag.name());
        r.append(" ");
        if self.ku {
            r.append("kernel");
        } else {
            r.append("user");
        }
        r.append(" ");
        crate::text::push_decimal_chars(self.ticker, &mut r);
        r.append(" ");
        crate::text::push_decimal_chars(self.time, &mut r);
        proof {
            assert(r@ =~= spec_tag_name(self.tag) + " "@ + (if self.ku {
                "kernel"@
            } else {
                "user"@
            }) + " "@ + crate::text::decimal_chars(self.ticker as nat) + " "@
                + crate::text::decimal_chars(self.time as nat));
        }
        r
    }

    /// The entry denoted by the first 18 bytes of `raw`, whose first byte
    /// must be a valid tag code.
    pub fn from_bytes(raw: &[u8]) -> (ts: Timestamp)
        requires
            raw@.len() >= 18,
            raw@[0] < 8,
        ensures
            ts == spec_timestamp_of(raw@.take(18)),
    {
        let tag = TimestampTag::from_byte(raw[0]).unwrap();
        let ku = raw[1] != 0;
        let ticker = vstd::bytes::u64_from_le_bytes(&raw[2..10]);
        let time = vstd::bytes::u64_from_le_bytes(&raw[10..18]);
        proof {
            assert(raw@.subrange(2, 10) =~= raw@.take(18).subrange(2, 10));
            assert(raw@.subrange(10, 18) =~= raw@.take(18).subrange(10, 18));
            assert(raw@.take(18)[0] == raw@[0]);
            assert(raw@.take(18)[1] == raw@[1]);
        }
        Timestamp { tag, ku, ticker, time }
    }
}

/// Encoding an entry and decoding the record gives the entry back; the
/// record is 18 bytes long and opens with a valid tag code.
pub proof fn lemma_timestamp_bytes_round_trip(ts: Timestamp)
    ensures
        spec_timestamp_bytes(ts).len() == 18,
        spec_timestamp_bytes(ts)[0] < 8,
        spec_timestamp_of(spec_timestamp_bytes(ts)) == ts,
{
    vstd::bytes::lemma_auto_spec_u64_to_from_le_bytes();
    let b = spec_timestamp_bytes(ts);
    assert(b.subrange(2, 10) =~= vstd::bytes::spec_u64_to_le_bytes(ts.ticker));
    assert(b.subrange(10, 18) =~= vstd::bytes::spec_u64_to_le_bytes(ts.time));
    lemma_tag_code_round_trip(ts.tag);
}

/// Malformed timestamp bytes: a length that is not a multiple of the record
/// width, or a record with an out-of-range tag code.
#[derive(Copy, Clone, Debug, PartialEq, Eq, Structural)]
pub struct FormatError;

/// The wire encoding of a whole trace: the records of its entries, in order.
pub open spec fn spec_encode(entries: Seq<Timestamp>) -> Seq<u8>
    decreases entries.len(),
{
    if entries.len() == 0 {
        Seq::empty()
    } else {
        spec_encode(entries.drop_last()) + spec_timestamp_bytes(entries.last())
    }
}

/// True of byte strings that decode cleanly: a whole number of 18-byte
/// records, each opening with a tag code below 8.
pub open spec fn wire_wf(bytes: Seq<u8>) -> bool {
    &&& bytes.len() % 18 == 0
    &&& forall|k: int| 0 <= k < bytes.len() / 18 ==> #[trigger] bytes[18 * k] < 8
}

/// The entries denoted by a well-formed byte string, record by record.
pub open spec fn spec_decode(bytes: Seq<u8>) -> Seq<Timestamp> {
    Seq::new((bytes.len() / 18) as nat, |k: int| spec_timestamp_of(bytes.subrange(18 * k, 18 * k + 18)))
}

/// Appending one entry to a trace appends its record to the encoding.
pub proof fn lemma_encode_push(entries: Seq<Timestamp>, ts: Timestamp)
    ensures
        spec_encode(entries.push(ts)) == spec_encode(entries) + spec_timestamp_bytes(ts),
{
    assert(entries.push(ts).drop_last() =~= entries);
}

/// An encoded trace is 18 bytes per entry.
pub proof fn lemma_encode_len(entries: Seq<Timestamp>)
    ensures
        spec_encode(entries).len() == 18 * entries.len(),
    decreases entries.len(),
{
    if entries.len() > 0 {
        lemma_timestamp_bytes_round_trip(entries.last());
        lemma_encode_len(entries.drop_last());
    }
}

/// Record `k` of an encoded trace is the record of entry `k`.
pub proof fn lemma_encode_chunk(entries: Seq<Timestamp>, k: int)
    requires
        0 <= k < entries.len(),
    ensures
        spec_encode(entries).subrange(18 * k, 18 * k + 18) == spec_timestamp_bytes(entries[k]),
    decreases entries.len(),
{
    lemma_encode_len(entries);
    lemma_encode_len(entries.drop_last());
    lemma_timestamp_bytes_round_trip(entries.last());
    if k == entries.len() - 1 {
        assert(spec_encode(entries).subrange(18 * k, 18 * k + 18) =~= spec_timestamp_bytes(
            entries.last(),
        ));
    } else {
        lemma_encode_chunk(entries.drop_last(), k);
        assert(spec_encode(entries).subrange(18 * k, 18 * k + 18) =~= spec_encode(
            entries.drop_last(),
        ).subrange(18 * k, 18 * k + 18));
        assert(entries.drop_last()[k] == entries[k]);
    }
}

/// Round trip of the trace encoding: for every finite sequence of entries,
/// decoding the encoding gives the sequence back, and the encoding is
/// well-formed, 18 bytes per entry.
pub proof fn lemma_encode_decode_round_trip(entries: Seq<Timestamp>)
    ensures
        spec_encode(entries).len() == 18 * entries.len(),
        wire_wf(spec_encode(entries)),
        spec_decode(spec_encode(entries)) == entries,
{
    let bytes = spec_encode(entries);
    lemma_encode_len(entries);
    assert(bytes.len() % 18 == 0 && bytes.len() / 18 == entries.len()) by (nonlinear_arith)
        requires
            bytes.len() == 18 * entries.len(),
    ;
    assert forall|k: int| 0 <= k < bytes.len() / 18 implies #[trigger] bytes[18 * k] < 8 by {
        lemma_encode_chunk(entries, k);
        lemma_timestamp_bytes_round_trip(entries[k]);
        assert(bytes[18 * k] == bytes.subrange(18 * k, 18 * k + 18)[0]);
    }
    assert forall|k: int| 0 <= k < entries.len() implies spec_decode(bytes)[k] == entries[k] by {
        lemma_encode_chunk(entries, k);
        lemma_timestamp_bytes_round_trip(entries[k]);
    }
    assert(spec_decode(bytes) =~= entries);
}

/// `n` clamped to 64 bits.
pub open spec fn clamp_u64(n: nat) -> u64 {
    if n > u64::MAX {
        u64::MAX
    } else {
        n as u64
    }
}

/// The nanoseconds the adjacent pair at `i` contributes to a latency total:
/// the span from a region's `Start` entry to the matching `End` entry right
/// after it, in the same domain and for the same ordinal. `sync` selects the
/// cursor-wait pairs (`ReadSync`/`WriteSync`); otherwise the payload-copy
/// pairs (`Read`/`Write`) count.
pub open spec fn pair_delta(s: Seq<Timestamp>, i: int, sync: bool) -> nat {
    if 0 <= i && i + 1 < s.len() && s[i + 1].ku == s[i].ku && s[i + 1].ticker == s[i].ticker
        && region_pair(s[i].tag, s[i + 1].tag, sync) {
        if s[i + 1].time >= s[i].time {
            (s[i + 1].time - s[i].time) as nat
        } else {
            0
        }
    } else {
        0
    }
}

/// Whether `start` opens and `end` closes the same measured region, of the
/// cursor-wait kind when `sync` and of the payload-copy kind otherwise.
pub open spec fn region_pair(start: TimestampTag, end: TimestampTag, sync: bool) -> bool {
    if sync {
        ||| (start == TimestampTag::ReadSyncStart && end == TimestampTag::ReadSyncEnd)
        ||| (start == TimestampTag::WriteSyncStart && end == TimestampTag::WriteSyncEnd)
    } else {
        ||| (start == TimestampTag::ReadStart && end == TimestampTag::ReadEnd)
        ||| (start == TimestampTag::WriteStart && end == TimestampTag::WriteEnd)
    }
}

/// Sum of the pair contributions at positions below `k`.
pub open spec fn latency_total(s: Seq<Timestamp>, k: int, sync: bool) -> nat
    decreases k,
{
    if k <= 0 {
        0
    } else {
        latency_total(s, k - 1, sync) + pair_delta(s, k - 1, sync)
    }
}

/// Append-only log of tagged latency events. Entries are never mutated or
/// removed once pushed; `reset` starts a fresh measurement session.
pub struct TimestampRecorder {
    records: Vec<Timestamp>,
}

impl View for TimestampRecorder {
    type V = Seq<Timestamp>;

    closed spec fn view(&self) -> Seq<Timestamp> {
        self.records@
    }
}

impl TimestampRecorder {
    /// An empty trace.
    pub fn new() -> (rcder: TimestampRecorder)
        ensures
            rcder@ == Seq::<Timestamp>::empty(),
    {
        TimestampRecorder { records: Vec::new() }
    }

    /// Number of entries recorded so far.
    pub fn len(&self) -> (n: usize)
        ensures
            n == self@.len(),
    {
        self.records.len()
    }

    /// The entry at position `i`.
    pub fn entry(&self, i: usize) -> (ts: &Timestamp)
        requires
            i < self@.len(),
        ensures
            *ts == self@[i as int],
    {
        &self.records[i]
    }

    /// Appends one entry; every earlier entry is kept unchanged.
    pub fn push(&mut self, ts: Timestamp)
        ensures
            final(self)@ == old(self)@.push(ts),
    {
        self.records.push(ts);
    }

    /// Appends one entry for the given region, domain and message ordinal,
    /// stamped with the current clock reading.
    pub fn record(&mut self, tag: TimestampTag, ku: bool, ticker: u64)
        ensures
            final(self)@.len() == old(self)@.len() + 1,
            final(self)@.take(old(self)@.len() as int) == old(self)@,
            final(self)@.last().tag == tag,
            final(self)@.last().ku == ku,
            final(self)@.last().ticker == ticker,
    {
        let ts = Timestamp::new_in_domain(tag, ku, ticker);
        self.records.push(ts);
        proof {
            assert(final(self)@.take(old(self)@.len() as int) =~= old(self)@);
        }
    }

    /// Clears all entries, starting a new measurement session.
    pub fn reset(&mut self)
        ensures
            final(self)@ == Seq::<Timestamp>::empty(),
    {
        self.records.clear();
    }

    /// Appends every entry of `more`, in order, after the present ones.
    pub fn extend(&mut self, more: &[Timestamp])
        ensures
            final(self)@ == old(self)@ + more@,
    {
        let mut i: usize = 0;
        while i < more.len()
            invariant
                i <= more@.len(),
                self@ == old(self)@ + more@.take(i as int),
            decreases more@.len() - i,
        {
            self.records.push(more[i]);
            proof {
                assert(old(self)@ + more@.take(i + 1) =~= (old(self)@ + more@.take(i as int)).push(
                    more@[i as int],
                ));
            }
            i += 1;
        }
        proof {
            assert(more@.take(more@.len() as int) =~= more@);
        }
    }

    /// Serializes the first `count` entries into their fixed-width binary
    /// records: what a bulk fetch with a latched count hands out.
    pub fn encode_prefix(&self, count: usize) -> (bytes: Vec<u8>)
        requires
            count <= self@.len(),
        ensures
            bytes@ == spec_encode(self@.take(count as int)),
            bytes@.len() == 18 * count,
    {
        let mut out: Vec<u8> = Vec::new();
        let mut i: usize = 0;
        while i < count
            invariant
                i <= count <= self@.len(),
                out@ == spec_encode(self@.take(i as int)),
            decreases count - i,
        {
            let raw = self.records[i].generate_bytes();
            let mut j: usize = 0;
            while j < 18
                invariant
                    j <= 18,
                    raw@ == spec_timestamp_bytes(self@[i as int]),
                    i < self@.len(),
                    out@ == spec_encode(self@.take(i as int)) + raw@.take(j as int),
                decreases 18 - j,
            {
                out.push(raw[j]);
                proof {
                    assert(raw@.take(j + 1) =~= raw@.take(j as int).push(raw@[j as int]));
                }
                j += 1;
            }
            proof {
                lemma_timestamp_bytes_round_trip(self@[i as int]);
                assert(raw@.take(18) =~= raw@);
                assert(self@.take(i + 1) =~= self@.take(i as int).push(self@[i as int]));
                lemma_encode_push(self@.take(i as int), self@[i as int]);
            }
            i += 1;
        }
        proof {
            lemma_encode_len(self@.take(count as int));
        }
        out
    }

    /// Serializes every entry into its fixed-width binary record.
    pub fn encode(&self) -> (bytes: Vec<u8>)
        ensures
            bytes@ == spec_encode(self@),
            bytes@.len() == 18 * self@.len(),
    {
        let n = self.records.len();
        let bytes = self.encode_prefix(n);
        proof {
            assert(self@.take(self@.len() as int) =~= self@);
        }
        bytes
    }

    /// Splits the trace into its two latencies: the total nanoseconds spent
    /// waiting on the opposing cursor and the total spent copying payloads,
    /// over all adjacent `*Start`/`*End` pairs, each saturating at 64 bits.
    pub fn analyze(&self) -> (r: (u64, u64))
        ensures
            r.0 == clamp_u64(latency_total(self@, self@.len() as int, true)),
            r.1 == clamp_u64(latency_total(self@, self@.len() as int, false)),
    {
        let mut wait: u64 = 0;
        let mut copy: u64 = 0;
        let n = self.records.len();
        let mut i: usize = 0;
        while i < n
            invariant
                i <= n,
                n == self@.len(),
                wait == clamp_u64(latency_total(self@, i as int, true)),
                copy == clamp_u64(latency_total(self@, i as int, false)),
            decreases n - i,
        {
            if i + 1 < n {
                let e = self.records[i];
                let f = self.records[i + 1];
                if f.ku == e.ku && f.ticker == e.ticker {
                    let delta = if f.time >= e.time {
                        f.time - e.time
                    } else {
                        0
                    };
                    let is_wait_pair = (matches!(e.tag, TimestampTag::ReadSyncStart) && matches!(f.tag, TimestampTag::ReadSyncEnd))
                        || (matches!(e.tag, TimestampTag::WriteSyncStart) && matches!(f.tag, TimestampTag::WriteSyncEnd));
                    let is_copy_pair = (matches!(e.tag, TimestampTag::ReadStart) && matches!(f.tag, TimestampTag::ReadEnd))
                        || (matches!(e.tag, TimestampTag::WriteStart) && matches!(f.tag, TimestampTag::WriteEnd));
                    if is_wait_pair {
                        wait = if wait <= u64::MAX - delta {
                            wait + delta
                        } else {
                            u64::MAX
                        };
                    }
                    if is_copy_pair {
                        copy = if copy <= u64::MAX - delta {
                            copy + delta
                        } else {
                            u64::MAX
                        };
                    }
                }
            }
            i += 1;
        }
        (wait, copy)
    }

    /// Parses a byte string into the sequence of entries it encodes.
    ///
    /// Succeeds exactly on well-formed input: a whole number of 18-byte
    /// records, each with a tag code below 8. On malformed input it fails
    /// with `FormatError` and exposes no entries at all.
    pub fn decode(bytes: &[u8]) -> (r: Result<Vec<Timestamp>, FormatError>)
        ensures
            r is Ok <==> wire_wf(bytes@),
            r is Ok ==> r->Ok_0@ == spec_decode(bytes@),
    {
        let blen = bytes.len();
        if blen % 18 != 0 {
            return Err(FormatError);
        }
        let n = blen / 18;
        proof {
            assert(blen == 18 * n) by (nonlinear_arith)
                requires
                    n == blen / 18,
                    blen % 18 == 0,
            ;
        }
        let mut out: Vec<Timestamp> = Vec::new();
        let mut k: usize = 0;
        let mut base: usize = 0;
        while k < n
            invariant
                bytes@.len() % 18 == 0,
                n == bytes@.len() / 18,
                bytes@.len() == 18 * n,
                blen == bytes@.len(),
                k <= n,
                base == 18 * k,
                forall|j: int| 0 <= j < k ==> #[trigger] bytes@[18 * j] < 8,
                out@.len() == k,
                forall|j: int|
                    0 <= j < k ==> #[trigger] out@[j] == spec_timestamp_of(
                        bytes@.subrange(18 * j, 18 * j + 18),
                    ),
            decreases n - k,
        {
            proof {
                assert(18 * k + 18 <= 18 * n) by (nonlinear_arith)
                    requires
                        k < n,
                ;
            }
            if bytes[base] >= 8 {
                return Err(FormatError);
            }
            let chunk = &bytes[base..base + 18];
            let ts = Timestamp::from_bytes(chunk);
            proof {
                assert(chunk@.take(18) =~= bytes@.subrange(18 * (k as int), 18 * (k as int) + 18));
            }
            out.push(ts);
            k += 1;
            base += 18;
        }
        proof {
            assert(out@ =~= spec_decode(bytes@));
        }
        Ok(out)
    }
}

} // verus!
