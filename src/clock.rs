use vstd::prelude::*;


verus! {

/// The system clock as milliseconds since the Unix epoch.
///
/// Relies on `std::time::SystemTime::now` and `duration_since(UNIX_EPOCH)`;
/// a clock set before the epoch reads as zero. Nothing is promised of the
/// reading itself.
#[verifier::external_body]
pub fn now_millis() -> i64 {
    std::time::SystemTime::now()
        .duration_since(std::time::UNIX_EPOCH)
        .unwrap_or_default()
        .as_millis() as i64
}

pub open spec fn is_lower_hex_digit(c: char) -> bool {
    ('0' <= c && c <= '9') || ('a' <= c && c <= 'f')
}

/// The canonical hyphenated form of a 128-bit identifier: 32 lower-case hex
/// digits in groups of 8-4-4-4-12, joined by `-`.
pub open spec fn is_canonical_id(s: Seq<char>) -> bool {
    &&& s.len() == 36
    &&& forall|i: int|
        0 <= i < 36 ==> if i == 8 || i == 13 || i == 18 || i == 23 {
            #[trigger] s[i] == '-'
        } else {
            is_lower_hex_digit(s[i])
        }
}

/// A name for the canonical text of the version 7 identifier made of a
/// millisecond timestamp and ten counter bytes.
pub uninterp spec fn v7_id_of(millis: u64, tail: Seq<u8>) -> Seq<char>;

/// The canonical text of a version 7 identifier.
///
/// Relies on `uuid::Builder::from_unix_timestamp_millis`, which packs the
/// timestamp and bytes without panicking (`encode_unix_timestamp_millis`),
/// and on the `Display` of `Uuid`, which writes the hyphenated lower-case form
/// (`format_hyphenated`).
#[verifier::external_body]
fn v7_id_text(millis: u64, tail: &[u8; 10]) -> (r: String)
    ensures
        is_canonical_id(r@),
        r@ == v7_id_of(millis, tail@),
{
    uuid::Builder::from_unix_timestamp_millis(millis, tail).into_uuid().to_string()
}

/// The ten counter bytes of an identifier: the counter's low 56 bits, big
/// endian, after three zero bytes.
pub open spec fn counter_tail(c: u64) -> Seq<u8> {
    seq![
        0u8,
        0u8,
        0u8,
        (c >> 48u64) as u8,
        (c >> 40u64) as u8,
        (c >> 32u64) as u8,
        (c >> 24u64) as u8,
        (c >> 16u64) as u8,
        (c >> 8u64) as u8,
        c as u8,
    ]
}

/// Largest counter within one millisecond.
pub const MAX_ID_COUNTER: u64 = 72057594037927935;

/// `(a_ms, a_count)` comes strictly before `(b_ms, b_count)`.
pub open spec fn id_before(a_ms: u64, a_count: u64, b_ms: u64, b_count: u64) -> bool {
    a_ms < b_ms || (a_ms == b_ms && a_count < b_count)
}

/// Hands out time-ordered message identifiers: each is made of a
/// millisecond timestamp and a counter, and each pair comes strictly after
/// the one before, so no two identifiers of a generator are made alike.
#[derive(Debug)]
pub struct MessageIdGenerator {
    last_millis: u64,
    counter: u64,
}

impl MessageIdGenerator {
    pub closed spec fn spec_millis(&self) -> u64 {
        self.last_millis
    }

    pub closed spec fn spec_counter(&self) -> u64 {
        self.counter
    }

    /// A generator that has issued nothing.
    pub fn new() -> (r: Self)
        ensures
            r.spec_millis() == 0,
            r.spec_counter() == 0,
    {
        MessageIdGenerator { last_millis: 0, counter: 0 }
    }

    /// Whether another identifier can be issued: the millisecond count has
    /// not reached its end.
    pub fn can_issue(&self) -> (r: bool)
        ensures
            r == (self.spec_millis() < u64::MAX),
    {
        self.last_millis < u64::MAX
    }

    /// The next identifier, for a clock that reads `now` milliseconds (a
    /// reading before the epoch counts as zero). A reading later than the
    /// last one starts a new millisecond at counter 0; otherwise the counter
    /// goes up, and past its largest value the millisecond does.
    pub fn next_id_at(&mut self, now: i64) -> (r: String)
        requires
            old(self).spec_millis() < u64::MAX,
        ensures
            id_before(
                old(self).spec_millis(),
                old(self).spec_counter(),
                final(self).spec_millis(),
                final(self).spec_counter(),
            ),
            now > old(self).spec_millis() ==> final(self).spec_millis() == now
                && final(self).spec_counter() == 0,
            r@ == v7_id_of(final(self).spec_millis(), counter_tail(final(self).spec_counter())),
            is_canonical_id(r@),
    {
        let ms: u64 = if now < 0 {
            0
        } else {
            now as u64
        };
        if ms > self.last_millis {
            self.last_millis = ms;
            self.counter = 0;
        } else if self.counter < MAX_ID_COUNTER {
            self.counter = self.counter + 1;
        } else {
            self.last_millis = self.last_millis + 1;
            self.counter = 0;
        }
        let c = self.counter;
        let tail: [u8; 10] = [
            0u8,
            0u8,
            0u8,
            (c >> 48u64) as u8,
            (c >> 40u64) as u8,
            (c >> 32u64) as u8,
            (c >> 24u64) as u8,
            (c >> 16u64) as u8,
            (c >> 8u64) as u8,
            c as u8,
        ];
        assert(tail@ =~= counter_tail(c));
        v7_id_text(self.last_millis, &tail)
    }
}

/// A new time-ordered message identifier in canonical form, timed by the
/// system clock.
pub fn generate_message_id(ids: &mut MessageIdGenerator) -> (r: String)
    requires
        old(ids).spec_millis() < u64::MAX,
    ensures
        id_before(
            old(ids).spec_millis(),
            old(ids).spec_counter(),
            final(ids).spec_millis(),
            final(ids).spec_counter(),
        ),
        r@ == v7_id_of(final(ids).spec_millis(), counter_tail(final(ids).spec_counter())),
        is_canonical_id(r@),
{
    ids.next_id_at(now_millis())
}

} // verus!
