use vstd::prelude::*;

use crate::credit::CreditBalance;
use crate::log::StoredMessage;
use crate::notify::NewDataNotification;
use crate::publish::StatusCode;

verus! {

/// Most messages fetched for one delivery round.
pub const FETCH_BATCH_LIMIT: u32 = 64;

/// Where a consumer group without a cursor starts reading.
#[derive(Debug, Clone, Copy, PartialEq, Eq, Structural)]
pub enum InitialPosition {
    /// After the messages committed so far.
    Latest,
    /// From the first message of the topic.
    Earliest,
}

/// The phases of a subscription stream.
#[derive(Debug, Clone, Copy, PartialEq, Eq, Structural)]
pub enum SessionState {
    AwaitingInit,
    Serving,
    Draining,
    Terminated,
}

/// Why a subscription stream ended.
#[derive(Debug, Clone, Copy, PartialEq, Eq, Structural)]
pub enum CloseReason {
    /// The client closed its side, or the downstream went away.
    ClientClose,
    /// A newer subscription of the same group on the same topic took over.
    Takeover,
    /// The server failed.
    Internal,
    /// A credit grant would have pushed the balance past `u32::MAX`.
    CreditOverflow,
    /// The subscriber sent a frame that has no place in the stream.
    InvalidFrame,
}

/// Why a subscription could not start or go on.
#[derive(Debug, Clone, Copy, PartialEq, Eq, Structural)]
pub enum SubscribeError {
    /// The first frame was not a well-formed `Init`.
    InvalidInit,
    /// The topic does not exist; subscribing never creates one.
    TopicNotFound,
    /// A credit grant overflowed the balance.
    CreditOverflow,
}

pub open spec fn subscribe_status(e: SubscribeError) -> StatusCode {
    match e {
        SubscribeError::TopicNotFound => StatusCode::NotFound,
        _ => StatusCode::InvalidArgument,
    }
}

impl SubscribeError {
    /// The status class under which the client sees this error.
    pub fn code(&self) -> (r: StatusCode)
        ensures
            r == subscribe_status(*self),
    {
        match self {
            SubscribeError::TopicNotFound => StatusCode::NotFound,
            _ => StatusCode::InvalidArgument,
        }
    }
}

pub open spec fn close_status(r: CloseReason) -> Option<StatusCode> {
    match r {
        CloseReason::ClientClose => None,
        CloseReason::Takeover => Some(StatusCode::Aborted),
        CloseReason::Internal => Some(StatusCode::Internal),
        CloseReason::CreditOverflow => Some(StatusCode::InvalidArgument),
        CloseReason::InvalidFrame => Some(StatusCode::InvalidArgument),
    }
}

impl CloseReason {
    /// The status the stream closes with: none for a clean close, `Aborted`
    /// for a takeover.
    pub fn status(&self) -> (r: Option<StatusCode>)
        ensures
            r == close_status(*self),
    {
        match self {
            CloseReason::ClientClose => None,
            CloseReason::Takeover => Some(StatusCode::Aborted),
            CloseReason::Internal => Some(StatusCode::Internal),
            CloseReason::CreditOverflow => Some(StatusCode::InvalidArgument),
            CloseReason::InvalidFrame => Some(StatusCode::InvalidArgument),
        }
    }
}

/// The first frame of a subscription stream.
#[derive(Debug, Clone)]
pub struct SubscriptionInit {
    pub topic: String,
    pub consumer_group: String,
    pub consumer_id: String,
    pub initial_position: InitialPosition,
}

/// A frame from the subscriber.
#[derive(Debug, Clone)]
pub enum UpstreamFrame {
    Init(SubscriptionInit),
    Credit(u32),
    Ack(String),
}

/// What a stream does after a frame from the subscriber.
#[derive(Debug, Clone, Copy, PartialEq, Eq, Structural)]
pub enum FrameOutcome {
    /// Credits were granted; this many are now available.
    Credited(u32),
    /// An acknowledgement was handled as decided.
    Acked(AckDecision),
    /// The frame ended the stream with this error.
    Failed(SubscribeError),
}

/// The first frame of a stream must be an `Init`; anything else, or none,
/// is refused.
pub fn expect_init(first: Option<UpstreamFrame>) -> (r: Result<SubscriptionInit, SubscribeError>)
    ensures
        first matches Some(UpstreamFrame::Init(i)) ==> r == Ok::<SubscriptionInit, SubscribeError>(i),
        !(first matches Some(UpstreamFrame::Init(_))) ==> r == Err::<SubscriptionInit, SubscribeError>(
            SubscribeError::InvalidInit,
        ),
{
    match first {
        Some(UpstreamFrame::Init(i)) => Ok(i),
        _ => Err(SubscribeError::InvalidInit),
    }
}

/// Where a subscription starts: after the group's cursor if it has one, else
/// after the current last message (`Latest`) or from the beginning
/// (`Earliest`).
pub open spec fn start_seq_of(stored: Option<i64>, position: InitialPosition, max_seq: i64) -> i64 {
    match stored {
        Some(c) => c,
        None => match position {
            InitialPosition::Latest => max_seq,
            InitialPosition::Earliest => 0,
        },
    }
}

/// The sequence after which a new subscription starts reading.
pub fn start_position(stored: Option<i64>, position: InitialPosition, max_seq: i64) -> (r: i64)
    ensures
        r == start_seq_of(stored, position, max_seq),
{
    match stored {
        Some(c) => c,
        None => match position {
            InitialPosition::Latest => max_seq,
            InitialPosition::Earliest => 0,
        },
    }
}

/// A fetch that the session has reserved credits for: up to `limit`
/// messages with a sequence above `after_seq`.
#[derive(Debug, Clone, Copy, PartialEq, Eq, Structural)]
pub struct FetchRequest {
    pub after_seq: i64,
    pub limit: u32,
}

/// What to do with an acknowledgement.
#[derive(Debug, Clone, Copy, PartialEq, Eq, Structural)]
pub enum AckDecision {
    /// Move the group's durable cursor up to this sequence.
    Advance(i64),
    /// Nothing to do: the sequence is already acknowledged or was never
    /// delivered by this stream.
    Ignore,
    /// The message id was not delivered by this stream since its last
    /// acknowledgement; resolve it to a sequence and call `ack_sequence`.
    Unknown,
}

/// The state of one subscription stream once its `Init` has been accepted.
///
/// Deliveries start after `start_seq` and go on without gaps: the stream has
/// handed out exactly the sequences `start_seq + 1 ..= delivery_cursor`, in
/// that order. Credits reserved for an outstanding fetch are counted
/// separately from those still available.
pub struct SubscriptionSession {
    state: SessionState,
    close_reason: Option<CloseReason>,
    topic_id: i64,
    consumer_group: String,
    consumer_id: String,
    start_seq: i64,
    delivery_cursor: i64,
    last_ack: i64,
    credits: CreditBalance,
    pending: Option<FetchRequest>,
    in_flight: Vec<(String, i64)>,
}

impl SubscriptionSession {
    pub closed spec fn spec_state(&self) -> SessionState {
        self.state
    }

    pub closed spec fn spec_close_reason(&self) -> Option<CloseReason> {
        self.close_reason
    }

    pub closed spec fn spec_topic_id(&self) -> i64 {
        self.topic_id
    }

    pub closed spec fn spec_group(&self) -> Seq<char> {
        self.consumer_group@
    }

    /// The durable cursor the stream started from.
    pub closed spec fn spec_start_seq(&self) -> i64 {
        self.start_seq
    }

    /// The highest sequence handed to the client.
    pub closed spec fn spec_delivery_cursor(&self) -> i64 {
        self.delivery_cursor
    }

    /// The highest sequence the client has acknowledged on this stream.
    pub closed spec fn spec_last_ack(&self) -> i64 {
        self.last_ack
    }

    /// Credits available for new fetches.
    pub closed spec fn spec_credits(&self) -> nat {
        self.credits.spec_available()
    }

    pub closed spec fn spec_pending(&self) -> Option<FetchRequest> {
        self.pending
    }

    /// Delivered and not yet acknowledged: `(message id, sequence)`.
    pub closed spec fn spec_in_flight(&self) -> Seq<(String, i64)> {
        self.in_flight@
    }

    /// Credits held by the stream: available plus reserved.
    pub open spec fn spec_held_credits(&self) -> nat {
        self.spec_credits() + match self.spec_pending() {
            Some(f) => f.limit as nat,
            None => 0,
        }
    }

    /// The sequences delivered so far, in delivery order.
    pub open spec fn spec_delivered(&self) -> Seq<i64> {
        delivered_range(self.spec_start_seq(), self.spec_delivery_cursor())
    }

    pub closed spec fn wf(&self) -> bool {
        &&& 0 <= self.start_seq <= self.last_ack <= self.delivery_cursor
        &&& self.state != SessionState::AwaitingInit
        &&& (self.state == SessionState::Terminated) == self.close_reason.is_some()
        &&& self.spec_held_credits() <= u32::MAX
        &&& (self.pending matches Some(f) ==> {
            &&& f.after_seq == self.delivery_cursor
            &&& f.limit > 0
            &&& self.state != SessionState::Terminated
        })
        &&& forall|i: int|
            0 <= i < self.in_flight@.len() ==> self.last_ack < (#[trigger] self.in_flight@[i]).1
                <= self.delivery_cursor
        &&& forall|i: int, j: int|
            0 <= i < j < self.in_flight@.len() ==> (#[trigger] self.in_flight@[i]).1
                < (#[trigger] self.in_flight@[j]).1
    }

    /// Accepts the first frame of a stream. The topic must exist (`topic_id`
    /// is what looking its name up gave); the stream starts after the
    /// group's stored cursor, or where `initial_position` says if there is
    /// none, with no credits.
    pub fn open(
        init: SubscriptionInit,
        topic_id: Option<i64>,
        stored_cursor: Option<i64>,
        max_seq: i64,
    ) -> (r: Result<SubscriptionSession, SubscribeError>)
        requires
            max_seq >= 0,
            stored_cursor matches Some(c) ==> c >= 0,
        ensures
            (init.topic@.len() == 0 || init.consumer_group@.len() == 0) ==> r == Err::<
                SubscriptionSession,
                SubscribeError,
            >(SubscribeError::InvalidInit),
            init.topic@.len() > 0 && init.consumer_group@.len() > 0 && topic_id is None ==> r
                == Err::<SubscriptionSession, SubscribeError>(SubscribeError::TopicNotFound),
            init.topic@.len() > 0 && init.consumer_group@.len() > 0 && topic_id is Some ==> r is Ok,
            r matches Ok(s) ==> {
                let start = start_seq_of(stored_cursor, init.initial_position, max_seq);
                &&& s.wf()
                &&& s.spec_state() == SessionState::Serving
                &&& s.spec_topic_id() == topic_id.unwrap()
                &&& s.spec_group() == init.consumer_group@
                &&& s.spec_start_seq() == start
                &&& s.spec_delivery_cursor() == start
                &&& s.spec_last_ack() == start
                &&& s.spec_credits() == 0
                &&& s.spec_pending() is None
                &&& s.spec_in_flight().len() == 0
            },
    {
        if init.topic.unicode_len() == 0 || init.consumer_group.unicode_len() == 0 {
            return Err(SubscribeError::InvalidInit);
        }
        let tid = match topic_id {
            Some(t) => t,
            None => {
                return Err(SubscribeError::TopicNotFound);
            },
        };
        let start = start_position(stored_cursor, init.initial_position, max_seq);
        Ok(
            SubscriptionSession {
                state: SessionState::Serving,
                close_reason: None,
                topic_id: tid,
                consumer_group: init.consumer_group,
                consumer_id: init.consumer_id,
                start_seq: start,
                delivery_cursor: start,
                last_ack: start,
                credits: CreditBalance::new(),
                pending: None,
                in_flight: Vec::new(),
            },
        )
    }

    /// Takes a `Credit{n}` frame. A grant that would take the credits the
    /// stream holds past `u32::MAX` ends the stream with `CreditOverflow`;
    /// otherwise returns the credits now available.
    pub fn grant(&mut self, n: u32) -> (r: Result<u32, SubscribeError>)
        requires
            old(self).wf(),
            old(self).spec_state() != SessionState::Terminated,
        ensures
            final(self).wf(),
            old(self).spec_held_credits() + n > u32::MAX ==> {
                &&& r == Err::<u32, SubscribeError>(SubscribeError::CreditOverflow)
                &&& final(self).spec_state() == SessionState::Terminated
                &&& final(self).spec_close_reason() == Some(CloseReason::CreditOverflow)
                &&& final(self).spec_pending() is None
            },
            old(self).spec_held_credits() + n <= u32::MAX ==> {
                &&& r == Ok::<u32, SubscribeError>((old(self).spec_credits() + n) as u32)
                &&& final(self).spec_credits() == old(self).spec_credits() + n
                &&& final(self).spec_state() == old(self).spec_state()
                &&& final(self).spec_pending() == old(self).spec_pending()
            },
            final(self).spec_delivery_cursor() == old(self).spec_delivery_cursor(),
            final(self).spec_last_ack() == old(self).spec_last_ack(),
            final(self).spec_start_seq() == old(self).spec_start_seq(),
            final(self).spec_topic_id() == old(self).spec_topic_id(),
            final(self).spec_in_flight() == old(self).spec_in_flight(),
    {
        let reserved: u32 = match self.pending {
            Some(f) => f.limit,
            None => 0,
        };
        let held = self.credits.available() + reserved;
        if n > u32::MAX - held {
            self.credits.reset();
            self.pending = None;
            self.state = SessionState::Terminated;
            self.close_reason = Some(CloseReason::CreditOverflow);
            return Err(SubscribeError::CreditOverflow);
        }
        let total = self.credits.add(n);
        Ok(total)
    }

    /// Takes a frame after the `Init`: a credit grant or an acknowledgement.
    /// A second `Init` is malformed and ends the stream, as does a grant
    /// that overflows.
    pub fn on_frame(&mut self, frame: UpstreamFrame) -> (r: FrameOutcome)
        requires
            old(self).wf(),
            old(self).spec_state() != SessionState::Terminated,
        ensures
            final(self).wf(),
            frame matches UpstreamFrame::Init(_) ==> r == FrameOutcome::Failed(
                SubscribeError::InvalidInit,
            ) && final(self).spec_state() == SessionState::Terminated,
            frame matches UpstreamFrame::Credit(n) ==> (if old(self).spec_held_credits() + n
                > u32::MAX {
                r == FrameOutcome::Failed(SubscribeError::CreditOverflow)
                    && final(self).spec_close_reason() == Some(CloseReason::CreditOverflow)
            } else {
                r == FrameOutcome::Credited((old(self).spec_credits() + n) as u32)
                    && final(self).spec_credits() == old(self).spec_credits() + n
            }),
            frame matches UpstreamFrame::Ack(id) ==> (r matches FrameOutcome::Acked(d) && ((d is Unknown)
                <==> !exists|i: int|
                0 <= i < old(self).spec_in_flight().len() && (#[trigger] old(
                    self,
                ).spec_in_flight()[i]).0@ == id@) && !(d is Ignore) && (d is Unknown ==> *final(self)
                == *old(self))),
            frame matches UpstreamFrame::Ack(id) ==> (r matches FrameOutcome::Acked(
                AckDecision::Advance(s),
            ) ==> {
                &&& exists|i: int|
                    0 <= i < old(self).spec_in_flight().len() && (#[trigger] old(
                        self,
                    ).spec_in_flight()[i]).0@ == id@ && old(self).spec_in_flight()[i].1 == s
                &&& old(self).spec_last_ack() < s
                &&& final(self).spec_last_ack() == s
                &&& in_flight_after_ack(old(self).spec_in_flight(), final(self).spec_in_flight(), s)
            }),
            final(self).spec_delivery_cursor() == old(self).spec_delivery_cursor(),
    {
        match frame {
            UpstreamFrame::Init(_) => {
                self.terminate(CloseReason::InvalidFrame);
                FrameOutcome::Failed(SubscribeError::InvalidInit)
            },
            UpstreamFrame::Credit(n) => match self.grant(n) {
                Ok(total) => FrameOutcome::Credited(total),
                Err(e) => FrameOutcome::Failed(e),
            },
            UpstreamFrame::Ack(id) => FrameOutcome::Acked(self.on_ack(&id)),
        }
    }

    /// Whether a notification concerns this stream: its topic, with data
    /// beyond what was delivered.
    pub fn wants(&self, n: &NewDataNotification) -> (r: bool)
        ensures
            r == (n.topic_id == self.spec_topic_id() && n.max_seq > self.spec_delivery_cursor()),
    {
        n.topic_id == self.topic_id && n.max_seq > self.delivery_cursor
    }

    /// Starts a delivery round against a topic whose last sequence is
    /// `max_seq`: reserves up to `FETCH_BATCH_LIMIT` available credits and
    /// says which messages to fetch. Without credits, or with nothing new,
    /// or outside `Serving`, nothing is reserved and nothing is to be read.
    pub fn plan_fetch(&mut self, max_seq: i64) -> (r: Option<FetchRequest>)
        requires
            old(self).wf(),
            old(self).spec_pending() is None,
        ensures
            final(self).wf(),
            r is None <==> (old(self).spec_state() != SessionState::Serving || old(self).spec_credits()
                == 0 || old(self).spec_delivery_cursor() >= max_seq),
            r is None ==> *final(self) == *old(self),
            r matches Some(f) ==> {
                let n = if old(self).spec_credits() < FETCH_BATCH_LIMIT {
                    old(self).spec_credits()
                } else {
                    FETCH_BATCH_LIMIT as nat
                };
                &&& f.after_seq == old(self).spec_delivery_cursor()
                &&& f.limit == n
                &&& final(self).spec_credits() == old(self).spec_credits() - n
                &&& final(self).spec_pending() == Some(f)
                &&& final(self).spec_held_credits() == old(self).spec_held_credits()
                &&& final(self).spec_state() == old(self).spec_state()
                &&& final(self).spec_delivery_cursor() == old(self).spec_delivery_cursor()
                &&& final(self).spec_last_ack() == old(self).spec_last_ack()
                &&& final(self).spec_start_seq() == old(self).spec_start_seq()
                &&& final(self).spec_topic_id() == old(self).spec_topic_id()
                &&& final(self).spec_in_flight() == old(self).spec_in_flight()
            },
    {
        if self.state != SessionState::Serving || self.credits.available() == 0
            || self.delivery_cursor >= max_seq {
            return None;
        }
        let n = self.credits.try_consume_many(FETCH_BATCH_LIMIT);
        let f = FetchRequest { after_seq: self.delivery_cursor, limit: n };
        self.pending = Some(f);
        Some(f)
    }

    /// Ends a delivery round: `rows` is what the fetch returned and the first
    /// `sent` of them reached the client. The delivery cursor moves to the
    /// last one sent, and the credits reserved but not spent come back. A
    /// send that failed (`sent < rows.len()`) ends the stream. Returns
    /// whether another round may find more at once: every reserved credit
    /// was spent.
    pub fn complete_fetch(&mut self, rows: &Vec<StoredMessage>, sent: usize) -> (more: bool)
        requires
            old(self).wf(),
            old(self).spec_pending() is Some,
            rows@.len() <= old(self).spec_pending().unwrap().limit,
            sent <= rows@.len(),
            forall|i: int|
                0 <= i < rows@.len() ==> (#[trigger] rows@[i]).sequence == old(
                    self,
                ).spec_delivery_cursor() + i + 1,
        ensures
            final(self).wf(),
            final(self).spec_pending() is None,
            final(self).spec_delivery_cursor() == old(self).spec_delivery_cursor() + sent,
            final(self).spec_credits() == old(self).spec_held_credits() - sent,
            final(self).spec_last_ack() == old(self).spec_last_ack(),
            final(self).spec_start_seq() == old(self).spec_start_seq(),
            final(self).spec_topic_id() == old(self).spec_topic_id(),
            final(self).spec_in_flight().len() == old(self).spec_in_flight().len() + sent,
            forall|i: int|
                0 <= i < old(self).spec_in_flight().len() ==> final(self).spec_in_flight()[i] == old(
                    self,
                ).spec_in_flight()[i],
            forall|i: int|
                0 <= i < sent ==> {
                    &&& final(self).spec_in_flight()[old(self).spec_in_flight().len() + i].0@
                        == rows@[i].message_id@
                    &&& final(self).spec_in_flight()[old(self).spec_in_flight().len() + i].1
                        == rows@[i].sequence
                },
            sent < rows@.len() ==> final(self).spec_state() == SessionState::Terminated
                && final(self).spec_close_reason() == Some(CloseReason::ClientClose),
            sent == rows@.len() ==> final(self).spec_state() == old(self).spec_state(),
            more == (sent == rows@.len() && rows@.len() == old(self).spec_pending().unwrap().limit
                && final(self).spec_state() == SessionState::Serving),
    {
        let f = match self.pending {
            Some(f) => f,
            None => {
                return false;
            },
        };
        let ghost old_in_flight = self.in_flight@;
        let ghost held = self.spec_held_credits();
        let mut i: usize = 0;
        while i < sent
            invariant
                sent <= rows@.len(),
                rows@.len() <= f.limit,
                f.after_seq == self.delivery_cursor,
                self.pending == Some(f),
                self.state == old(self).state,
                self.close_reason == old(self).close_reason,
                self.credits == old(self).credits,
                self.start_seq == old(self).start_seq,
                self.last_ack == old(self).last_ack,
                self.delivery_cursor == old(self).delivery_cursor,
                self.topic_id == old(self).topic_id,
                0 <= self.last_ack <= self.delivery_cursor,
                forall|q: int|
                    0 <= q < rows@.len() ==> (#[trigger] rows@[q]).sequence == f.after_seq + q + 1,
                i <= sent,
                self.in_flight@.len() == old_in_flight.len() + i,
                forall|q: int|
                    0 <= q < old_in_flight.len() ==> self.in_flight@[q] == old_in_flight[q],
                forall|q: int|
                    0 <= q < i ==> {
                        &&& self.in_flight@[old_in_flight.len() + q].0@ == rows@[q].message_id@
                        &&& self.in_flight@[old_in_flight.len() + q].1 == rows@[q].sequence
                    },
                forall|q: int|
                    0 <= q < old_in_flight.len() ==> self.last_ack < (#[trigger] old_in_flight[q]).1
                        <= f.after_seq,
                forall|q: int, r: int|
                    0 <= q < r < old_in_flight.len() ==> (#[trigger] old_in_flight[q]).1
                        < (#[trigger] old_in_flight[r]).1,
            decreases sent - i,
        {
            let id = rows[i].message_id.clone();
            let ghost before = self.in_flight@;
            self.in_flight.push((id, rows[i].sequence));
            proof {
                assert(self.in_flight@ == before.push((id, rows@[i as int].sequence)));
            }
            i = i + 1;
        }
        let unused: u32 = f.limit - sent as u32;
        assert(self.credits.spec_available() + unused <= u32::MAX);
        self.credits.add(unused);
        self.pending = None;
        if sent > 0 {
            self.delivery_cursor = rows[sent - 1].sequence;
        }
        proof {
            assert forall|q: int| 0 <= q < self.in_flight@.len() implies self.last_ack < (
            #[trigger] self.in_flight@[q]).1 <= self.delivery_cursor by {
                if q >= old_in_flight.len() {
                    let d = q - old_in_flight.len();
                    assert(self.in_flight@[q].1 == rows@[d].sequence);
                    assert(rows@[d].sequence == f.after_seq + d + 1);
                } else {
                    assert(self.in_flight@[q] == old_in_flight[q]);
                }
            }
            assert forall|q: int, r: int| 0 <= q < r < self.in_flight@.len() implies (
            #[trigger] self.in_flight@[q]).1 < (#[trigger] self.in_flight@[r]).1 by {
                if r >= old_in_flight.len() {
                    let d = r - old_in_flight.len();
                    assert(self.in_flight@[r].1 == rows@[d].sequence);
                    if q >= old_in_flight.len() {
                        let e = q - old_in_flight.len();
                        assert(self.in_flight@[q].1 == rows@[e].sequence);
                    } else {
                        assert(self.in_flight@[q] == old_in_flight[q]);
                    }
                } else {
                    assert(self.in_flight@[q] == old_in_flight[q]);
                    assert(self.in_flight@[r] == old_in_flight[r]);
                }
            }
        }
        if sent < rows.len() {
            self.state = SessionState::Terminated;
            self.close_reason = Some(CloseReason::ClientClose);
            return false;
        }
        sent == f.limit as usize && self.state == SessionState::Serving
    }

    /// Records an acknowledgement of `seq`, which lies above the last one,
    /// and forgets the in-flight entries it covers.
    fn acknowledge(&mut self, seq: i64)
        requires
            old(self).wf(),
            old(self).spec_last_ack() < seq <= old(self).spec_delivery_cursor(),
        ensures
            final(self).wf(),
            final(self).spec_last_ack() == seq,
            in_flight_after_ack(old(self).spec_in_flight(), final(self).spec_in_flight(), seq),
            final(self).spec_state() == old(self).spec_state(),
            final(self).spec_close_reason() == old(self).spec_close_reason(),
            final(self).spec_topic_id() == old(self).spec_topic_id(),
            final(self).spec_start_seq() == old(self).spec_start_seq(),
            final(self).spec_delivery_cursor() == old(self).spec_delivery_cursor(),
            final(self).spec_credits() == old(self).spec_credits(),
            final(self).spec_pending() == old(self).spec_pending(),
    {
        let ghost before = self.in_flight@;
        let mut idx: usize = 0;
        while idx < self.in_flight.len() && self.in_flight[idx].1 <= seq
            invariant
                self.in_flight@ == before,
                idx <= before.len(),
                forall|q: int| 0 <= q < idx ==> (#[trigger] before[q]).1 <= seq,
            decreases before.len() - idx,
        {
            idx = idx + 1;
        }
        proof {
            assert forall|q: int| idx <= q < before.len() implies (#[trigger] before[q]).1 > seq by {
                if q > idx {
                    assert(before[idx as int].1 < before[q].1);
                }
            }
        }
        let rest = self.in_flight.split_off(idx);
        self.in_flight = rest;
        self.last_ack = seq;
        proof {
            assert(self.in_flight@ =~= before.subrange(idx as int, before.len() as int));
            assert(in_flight_after_ack(before, self.in_flight@, seq)) by {
                let w = idx as int;
                assert(0 <= w <= before.len() && self.in_flight@ == before.subrange(
                    w,
                    before.len() as int,
                ));
            }
        }
    }

    /// Takes an `Ack{message_id}` frame. A message delivered by this stream
    /// and not yet covered by an acknowledgement moves the group's cursor to
    /// its sequence; any other id has to be resolved to a sequence first.
    pub fn on_ack(&mut self, message_id: &String) -> (r: AckDecision)
        requires
            old(self).wf(),
        ensures
            final(self).wf(),
            r is Unknown <==> !exists|i: int|
                0 <= i < old(self).spec_in_flight().len() && (#[trigger] old(
                    self,
                ).spec_in_flight()[i]).0@ == message_id@,
            r is Unknown ==> *final(self) == *old(self),
            r matches AckDecision::Advance(s) ==> {
                &&& exists|i: int|
                    0 <= i < old(self).spec_in_flight().len() && (#[trigger] old(
                        self,
                    ).spec_in_flight()[i]).0@ == message_id@ && old(self).spec_in_flight()[i].1 == s
                &&& old(self).spec_last_ack() < s <= old(self).spec_delivery_cursor()
                &&& final(self).spec_last_ack() == s
                &&& in_flight_after_ack(old(self).spec_in_flight(), final(self).spec_in_flight(), s)
                &&& final(self).spec_delivery_cursor() == old(self).spec_delivery_cursor()
                &&& final(self).spec_credits() == old(self).spec_credits()
                &&& final(self).spec_state() == old(self).spec_state()
            },
            !(r is Ignore),
    {
        let mut i: usize = 0;
        while i < self.in_flight.len()
            invariant
                self.wf(),
                *self == *old(self),
                i <= self.in_flight@.len(),
                forall|q: int| 0 <= q < i ==> (#[trigger] self.in_flight@[q]).0@ != message_id@,
            decreases self.in_flight@.len() - i,
        {
            if self.in_flight[i].0 == *message_id {
                let s = self.in_flight[i].1;
                assert(self.in_flight@[i as int].0@ == message_id@);
                self.acknowledge(s);
                return AckDecision::Advance(s);
            }
            i = i + 1;
        }
        AckDecision::Unknown
    }

    /// Takes an acknowledgement resolved to sequence `seq`: one above the last
    /// acknowledgement and already delivered moves the group's cursor there;
    /// any other is ignored.
    pub fn ack_sequence(&mut self, seq: i64) -> (r: AckDecision)
        requires
            old(self).wf(),
        ensures
            final(self).wf(),
            (old(self).spec_last_ack() < seq <= old(self).spec_delivery_cursor()) ==> {
                &&& r == AckDecision::Advance(seq)
                &&& final(self).spec_last_ack() == seq
                &&& in_flight_after_ack(old(self).spec_in_flight(), final(self).spec_in_flight(), seq)
                &&& final(self).spec_delivery_cursor() == old(self).spec_delivery_cursor()
                &&& final(self).spec_credits() == old(self).spec_credits()
                &&& final(self).spec_state() == old(self).spec_state()
            },
            !(old(self).spec_last_ack() < seq <= old(self).spec_delivery_cursor()) ==> r
                == AckDecision::Ignore && *final(self) == *old(self),
    {
        if self.last_ack < seq && seq <= self.delivery_cursor {
            self.acknowledge(seq);
            AckDecision::Advance(seq)
        } else {
            AckDecision::Ignore
        }
    }

    /// The client half-closed its side: a serving stream stops starting new
    /// rounds and drains.
    pub fn half_close(&mut self)
        requires
            old(self).wf(),
        ensures
            final(self).wf(),
            old(self).spec_state() == SessionState::Serving ==> final(self).spec_state()
                == SessionState::Draining,
            old(self).spec_state() != SessionState::Serving ==> final(self).spec_state() == old(
                self,
            ).spec_state(),
            final(self).spec_delivery_cursor() == old(self).spec_delivery_cursor(),
            final(self).spec_pending() == old(self).spec_pending(),
            final(self).spec_credits() == old(self).spec_credits(),
    {
        if self.state == SessionState::Serving {
            self.state = SessionState::Draining;
        }
    }

    /// Ends the stream for `reason`, returning any reserved credits. A stream
    /// already ended keeps its first reason.
    pub fn terminate(&mut self, reason: CloseReason)
        requires
            old(self).wf(),
        ensures
            final(self).wf(),
            final(self).spec_state() == SessionState::Terminated,
            final(self).spec_pending() is None,
            old(self).spec_state() != SessionState::Terminated ==> final(self).spec_close_reason()
                == Some(reason),
            old(self).spec_state() == SessionState::Terminated ==> final(self).spec_close_reason()
                == old(self).spec_close_reason(),
            final(self).spec_held_credits() == old(self).spec_held_credits(),
            final(self).spec_delivery_cursor() == old(self).spec_delivery_cursor(),
            final(self).spec_last_ack() == old(self).spec_last_ack(),
    {
        if self.state == SessionState::Terminated {
            return;
        }
        match self.pending {
            Some(f) => {
                self.credits.add(f.limit);
            },
            None => {},
        }
        self.pending = None;
        self.state = SessionState::Terminated;
        self.close_reason = Some(reason);
    }

    /// The state of the stream.
    pub fn state(&self) -> (r: SessionState)
        ensures
            r == self.spec_state(),
    {
        self.state
    }

    /// Why the stream ended, once it has.
    pub fn close_reason(&self) -> (r: Option<CloseReason>)
        ensures
            r == self.spec_close_reason(),
    {
        self.close_reason
    }

    pub fn topic_id(&self) -> (r: i64)
        ensures
            r == self.spec_topic_id(),
    {
        self.topic_id
    }

    pub fn consumer_group(&self) -> (r: &String)
        ensures
            r@ == self.spec_group(),
    {
        &self.consumer_group
    }

    pub fn consumer_id(&self) -> (r: &String) {
        &self.consumer_id
    }

    /// The highest sequence handed to the client.
    pub fn delivery_cursor(&self) -> (r: i64)
        ensures
            r == self.spec_delivery_cursor(),
    {
        self.delivery_cursor
    }

    /// The highest sequence acknowledged on this stream.
    pub fn last_ack(&self) -> (r: i64)
        ensures
            r == self.spec_last_ack(),
    {
        self.last_ack
    }

    /// Credits available for new rounds.
    pub fn available_credits(&self) -> (r: u32)
        ensures
            r == self.spec_credits(),
    {
        self.credits.available()
    }
}

/// After acknowledging `seq`, the in-flight list is the old one without the
/// prefix of entries at or below `seq`.
pub open spec fn in_flight_after_ack(before: Seq<(String, i64)>, after: Seq<(String, i64)>, seq: i64) -> bool {
    exists|idx: int|
        0 <= idx <= before.len() && after == before.subrange(idx, before.len() as int) && (forall|
            q: int,
        | 0 <= q < idx ==> (#[trigger] before[q]).1 <= seq) && (forall|q: int|
            idx <= q < before.len() ==> (#[trigger] before[q]).1 > seq)
}

/// The sequences a stream that started after `start` has delivered once its
/// delivery cursor is `cursor`, in delivery order.
pub open spec fn delivered_range(start: i64, cursor: i64) -> Seq<i64> {
    Seq::new((cursor - start) as nat, |i: int| (start + 1 + i) as i64)
}

/// A delivery round hands the client exactly the rows it sent, in fetch
/// order, after everything delivered before: with rows that carry the
/// sequences following the delivery cursor, as a fetch returns them, a
/// stream's deliveries stay in strictly increasing sequence order.
pub proof fn lemma_round_extends_deliveries(
    start: i64,
    before: i64,
    rows: Seq<StoredMessage>,
    sent: int,
)
    requires
        0 <= start <= before,
        0 <= sent <= rows.len(),
        before + sent <= i64::MAX,
        forall|i: int| 0 <= i < rows.len() ==> (#[trigger] rows[i]).sequence == before + i + 1,
    ensures
        delivered_range(start, (before + sent) as i64) == delivered_range(start, before) + rows.take(
            sent,
        ).map_values(|m: StoredMessage| m.sequence),
        forall|i: int, j: int|
            0 <= i < j < before + sent - start ==> #[trigger] delivered_range(
                start,
                (before + sent) as i64,
            )[i] < #[trigger] delivered_range(start, (before + sent) as i64)[j],
{
    let a = delivered_range(start, (before + sent) as i64);
    let b = delivered_range(start, before) + rows.take(sent).map_values(|m: StoredMessage| m.sequence);
    assert forall|i: int| 0 <= i < a.len() implies a[i] == b[i] by {
        if i >= before - start {
            let d = i - (before - start);
            assert(rows.take(sent)[d] == rows[d]);
        }
    }
    assert(a =~= b);
}

/// Nothing above the group's durable cursor is skipped: a stream that starts
/// after the cursor `start` delivers every later sequence `s` up to its
/// delivery cursor, each exactly once, and all of them before any sequence
/// above `s`.
pub proof fn lemma_no_sequence_skipped(start: i64, cursor: i64, s: i64)
    requires
        0 <= start < s <= cursor,
    ensures
        delivered_range(start, cursor)[s - start - 1] == s,
        forall|i: int|
            0 <= i < delivered_range(start, cursor).len() ==> (#[trigger] delivered_range(
                start,
                cursor,
            )[i] == s <==> i == s - start - 1),
        forall|i: int|
            0 <= i < s - start - 1 ==> #[trigger] delivered_range(start, cursor)[i] < s,
{
}

} // verus!
