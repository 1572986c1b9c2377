use vstd::prelude::*;

use crate::notify::NewDataNotification;
use crate::order::{bytes_lt, compare_bytes, lemma_bytes_lt_transitive};
use crate::publish::{is_valid_topic, WriterError};
use crate::recovery::{empty_logs, flatten, lemma_flatten_step, topics_fit};
use vstd::utf8::{encode_utf8, encode_utf8_decode_utf8};

verus! {

/// A topic as stored: its numeric id, its name and when it was created.
#[derive(Debug, Clone)]
pub struct TopicRecord {
    pub id: i64,
    pub name: String,
    pub created_at: i64,
}

pub struct TopicView {
    pub id: i64,
    pub name: Seq<char>,
    pub created_at: i64,
}

impl View for TopicRecord {
    type V = TopicView;

    open spec fn view(&self) -> TopicView {
        TopicView { id: self.id, name: self.name@, created_at: self.created_at }
    }
}

/// A committed message.
#[derive(Debug, Clone)]
pub struct StoredMessage {
    pub topic_id: i64,
    pub sequence: i64,
    pub message_id: String,
    pub payload: Option<Vec<u8>>,
    pub attributes: Option<String>,
    pub timestamp: i64,
}

pub struct MessageView {
    pub topic_id: i64,
    pub sequence: i64,
    pub message_id: Seq<char>,
    pub payload: Option<Seq<u8>>,
    pub attributes: Option<Seq<char>>,
    pub timestamp: i64,
}

pub open spec fn opt_bytes_view(p: Option<Vec<u8>>) -> Option<Seq<u8>> {
    match p {
        Some(v) => Some(v@),
        None => None,
    }
}

pub open spec fn opt_string_view(s: Option<String>) -> Option<Seq<char>> {
    match s {
        Some(v) => Some(v@),
        None => None,
    }
}

impl View for StoredMessage {
    type V = MessageView;

    open spec fn view(&self) -> MessageView {
        MessageView {
            topic_id: self.topic_id,
            sequence: self.sequence,
            message_id: self.message_id@,
            payload: opt_bytes_view(self.payload),
            attributes: opt_string_view(self.attributes),
            timestamp: self.timestamp,
        }
    }
}

fn copy_bytes(p: &Option<Vec<u8>>) -> (r: Option<Vec<u8>>)
    ensures
        opt_bytes_view(r) == opt_bytes_view(*p),
{
    match p {
        Some(v) => {
            let c = v.clone();
            assert(c@ =~= v@);
            Some(c)
        },
        None => None,
    }
}

fn copy_text(s: &Option<String>) -> (r: Option<String>)
    ensures
        opt_string_view(r) == opt_string_view(*s),
{
    match s {
        Some(v) => Some(v.clone()),
        None => None,
    }
}

impl StoredMessage {
    /// A copy of this message.
    pub fn duplicate(&self) -> (r: StoredMessage)
        ensures
            r@ == self@,
    {
        StoredMessage {
            topic_id: self.topic_id,
            sequence: self.sequence,
            message_id: self.message_id.clone(),
            payload: copy_bytes(&self.payload),
            attributes: copy_text(&self.attributes),
            timestamp: self.timestamp,
        }
    }
}

/// One publish handed to the writer, already validated.
#[derive(Debug, Clone)]
pub struct PublishCmd {
    pub topic: String,
    pub message_id: String,
    pub payload: Option<Vec<u8>>,
    pub attributes: Option<String>,
}

pub struct CmdView {
    pub topic: Seq<char>,
    pub message_id: Seq<char>,
    pub payload: Option<Seq<u8>>,
    pub attributes: Option<Seq<char>>,
}

impl View for PublishCmd {
    type V = CmdView;

    open spec fn view(&self) -> CmdView {
        CmdView {
            topic: self.topic@,
            message_id: self.message_id@,
            payload: opt_bytes_view(self.payload),
            attributes: opt_string_view(self.attributes),
        }
    }
}

impl PublishCmd {
    /// A copy of this command.
    pub fn duplicate(&self) -> (r: PublishCmd)
        ensures
            r@ == self@,
    {
        PublishCmd {
            topic: self.topic.clone(),
            message_id: self.message_id.clone(),
            payload: copy_bytes(&self.payload),
            attributes: copy_text(&self.attributes),
        }
    }
}

/// What the writer tells a producer once its publish is durable.
#[derive(Debug, Clone)]
pub struct PublishAck {
    pub topic_id: i64,
    pub message_id: String,
    pub sequence: i64,
    pub timestamp: i64,
}

/// The contents of the log: its topics in order of creation, and each
/// topic's messages in sequence order.
pub struct LogModel {
    pub topics: Seq<TopicView>,
    pub logs: Seq<Seq<MessageView>>,
}

/// The index of the topic named `name`, if there is one.
pub open spec fn topic_index(topics: Seq<TopicView>, name: Seq<char>) -> Option<int> {
    if exists|i: int| 0 <= i < topics.len() && #[trigger] topics[i].name == name {
        Some(choose|i: int| 0 <= i < topics.len() && #[trigger] topics[i].name == name)
    } else {
        None
    }
}

/// The message that a publish stores as `sequence` of the topic with `topic_id`.
pub open spec fn stored_from(c: CmdView, topic_id: i64, sequence: i64, ts: i64) -> MessageView {
    MessageView {
        topic_id,
        sequence,
        message_id: c.message_id,
        payload: c.payload,
        attributes: c.attributes,
        timestamp: ts,
    }
}

/// The log after one publish at time `ts`: a known topic gets the message as
/// its next sequence; an unknown topic is created with the next id and the
/// message as its sequence 1.
pub open spec fn apply_publish(m: LogModel, c: CmdView, ts: i64) -> LogModel {
    match topic_index(m.topics, c.topic) {
        Some(k) => LogModel {
            topics: m.topics,
            logs: m.logs.update(
                k,
                m.logs[k].push(stored_from(c, (k + 1) as i64, (m.logs[k].len() + 1) as i64, ts)),
            ),
        },
        None => LogModel {
            topics: m.topics.push(
                TopicView { id: (m.topics.len() + 1) as i64, name: c.topic, created_at: ts },
            ),
            logs: m.logs.push(seq![stored_from(c, (m.topics.len() + 1) as i64, 1, ts)]),
        },
    }
}

/// The log after the publishes of `cmds`, in order.
pub open spec fn apply_all(m: LogModel, cmds: Seq<CmdView>, ts: i64) -> LogModel
    decreases cmds.len(),
{
    if cmds.len() == 0 {
        m
    } else {
        apply_publish(apply_all(m, cmds.drop_last(), ts), cmds.last(), ts)
    }
}

/// The topic id and sequence that a publish is given.
pub open spec fn assigned(m: LogModel, c: CmdView) -> (i64, i64) {
    match topic_index(m.topics, c.topic) {
        Some(k) => ((k + 1) as i64, (m.logs[k].len() + 1) as i64),
        None => ((m.topics.len() + 1) as i64, 1),
    }
}

/// The acknowledgements of a committed batch, one per publish in order, and
/// one notification for each topic that the batch wrote to.
#[derive(Debug, Clone)]
pub struct BatchOutcome {
    pub acks: Vec<PublishAck>,
    pub notifications: Vec<NewDataNotification>,
}

/// The answers owed to the producers of a batch once its commit has run.
#[derive(Debug)]
pub struct Settlement {
    /// One answer per publish, in batch order.
    pub replies: Vec<Result<PublishAck, WriterError>>,
    /// The commit failed: the in-memory log is ahead of the file and must be
    /// rolled back to the mark taken before the batch.
    pub roll_back: bool,
}

/// Settles a batch after its commit: on success every producer gets its
/// acknowledgement; on failure every producer gets the storage engine's
/// message and nothing of the batch counts as committed.
pub fn settle_batch(acks: Vec<PublishAck>, commit: Result<(), String>) -> (r: Settlement)
    ensures
        r.replies@.len() == acks@.len(),
        r.roll_back == commit is Err,
        commit is Ok ==> forall|i: int|
            0 <= i < acks@.len() ==> #[trigger] r.replies@[i] == Ok::<PublishAck, WriterError>(
                acks@[i],
            ),
        commit matches Err(m) ==> forall|i: int|
            0 <= i < acks@.len() ==> (#[trigger] r.replies@[i] matches Err(
                WriterError::Database(x),
            ) && x@ == m@),
{
    let ghost all = acks@;
    let mut rest = acks;
    let mut replies: Vec<Result<PublishAck, WriterError>> = Vec::new();
    let mut i: usize = 0;
    let n = rest.len();
    while i < n
        invariant
            n == all.len(),
            i <= n,
            rest@ == all.subrange(i as int, n as int),
            replies@.len() == i,
            commit is Ok ==> forall|q: int|
                0 <= q < i ==> #[trigger] replies@[q] == Ok::<PublishAck, WriterError>(all[q]),
            commit matches Err(m) ==> forall|q: int|
                0 <= q < i ==> (#[trigger] replies@[q] matches Err(WriterError::Database(x)) && x@
                    == m@),
        decreases n - i,
    {
        let ack = rest.remove(0);
        assert(ack == all[i as int]);
        let reply = match &commit {
            Ok(()) => Ok(ack),
            Err(m) => Err(WriterError::Database(m.clone())),
        };
        replies.push(reply);
        assert(rest@ =~= all.subrange(i + 1, n as int));
        i = i + 1;
    }
    Settlement { replies, roll_back: commit.is_err() }
}

pub open spec fn cmds_view(cmds: Seq<PublishCmd>) -> Seq<CmdView> {
    cmds.map_values(|c: PublishCmd| c@)
}

/// The first `start` is `after` held to `0..=len`.
pub open spec fn range_start(after: i64, len: nat) -> int {
    if after < 0 {
        0
    } else if after > len {
        len as int
    } else {
        after as int
    }
}

pub open spec fn range_end(start: int, limit: nat, len: nat) -> int {
    if start + limit > len {
        len as int
    } else {
        start + limit
    }
}

/// The durable log: topics and their messages. It is what the writer
/// commits to and what subscriptions read from.
///
/// Topic `k` (from 0) has id `k + 1`, and its messages carry sequences
/// `1..=n` in order, without gaps.
pub struct MessageLog {
    topics: Vec<TopicRecord>,
    messages: Vec<Vec<StoredMessage>>,
}

impl MessageLog {
    pub closed spec fn model(&self) -> LogModel {
        LogModel {
            topics: self.topics@.map_values(|t: TopicRecord| t@),
            logs: self.messages@.map_values(
                |v: Vec<StoredMessage>| v@.map_values(|s: StoredMessage| s@),
            ),
        }
    }

    pub open spec fn model_wf(m: LogModel) -> bool {
        &&& m.topics.len() == m.logs.len()
        &&& m.topics.len() < i64::MAX
        &&& forall|k: int|
            0 <= k < m.topics.len() ==> {
                &&& (#[trigger] m.topics[k]).id == k + 1
                &&& is_valid_topic(m.topics[k].name)
            }
        &&& forall|i: int, j: int|
            0 <= i < m.topics.len() && 0 <= j < m.topics.len() && i != j ==> (#[trigger] m.topics[i]).name
                != (#[trigger] m.topics[j]).name
        &&& forall|k: int|
            0 <= k < m.logs.len() ==> {
                &&& (#[trigger] m.logs[k]).len() <= i64::MAX
                &&& forall|j: int|
                    0 <= j < m.logs[k].len() ==> {
                        &&& (#[trigger] m.logs[k][j]).sequence == j + 1
                        &&& m.logs[k][j].topic_id == k + 1
                    }
            }
    }

    /// Topic ids match positions, names are valid and unique, and every
    /// topic's sequences run `1..=n`.
    pub closed spec fn wf(&self) -> bool {
        &&& self.topics@.len() == self.messages@.len()
        &&& Self::model_wf(self.model())
    }

    /// Room for `n` more topics and `n` more messages on any topic.
    pub open spec fn has_room(m: LogModel, n: nat) -> bool {
        &&& m.topics.len() + n < i64::MAX
        &&& forall|k: int| 0 <= k < m.logs.len() ==> (#[trigger] m.logs[k]).len() + n < i64::MAX
    }

    /// An empty log.
    pub fn new() -> (r: Self)
        ensures
            r.wf(),
            r.model().topics.len() == 0,
            r.model().logs.len() == 0,
    {
        let r = MessageLog { topics: Vec::new(), messages: Vec::new() };
        assert(r.model().topics =~= Seq::<TopicView>::empty());
        assert(r.model().logs =~= Seq::<Seq<MessageView>>::empty());
        r
    }

    /// The position of the topic named `name`.
    fn find_topic(&self, name: &String) -> (r: Option<usize>)
        requires
            self.wf(),
        ensures
            r == (match topic_index(self.model().topics, name@) {
                Some(k) => Some(k as usize),
                None => None::<usize>,
            }),
            r matches Some(k) ==> k < self.model().topics.len() && self.model().topics[k as int].name
                == name@,
    {
        let ghost m = self.model();
        let mut i: usize = 0;
        while i < self.topics.len()
            invariant
                self.wf(),
                m == self.model(),
                i <= self.topics@.len(),
                forall|j: int| 0 <= j < i ==> (#[trigger] m.topics[j]).name != name@,
            decreases self.topics@.len() - i,
        {
            assert(m.topics[i as int] == self.topics@[i as int]@);
            if self.topics[i].name == *name {
                assert(m.topics[i as int].name == name@);
                let ghost c = choose|c: int| 0 <= c < m.topics.len() && #[trigger] m.topics[c].name == name@;
                assert(c == i);
                return Some(i);
            }
            i = i + 1;
        }
        None
    }

    /// Whether `n` more publishes fit: ids and sequences stay within `i64`.
    pub fn has_room_for(&self, n: usize) -> (r: bool)
        requires
            self.wf(),
        ensures
            r == Self::has_room(self.model(), n as nat),
    {
        let ghost m = self.model();
        if self.topics.len() as u128 + n as u128 >= i64::MAX as u128 {
            return false;
        }
        let mut k: usize = 0;
        while k < self.messages.len()
            invariant
                m == self.model(),
                self.wf(),
                k <= self.messages@.len(),
                forall|j: int| 0 <= j < k ==> (#[trigger] m.logs[j]).len() + n < i64::MAX,
            decreases self.messages@.len() - k,
        {
            assert(m.logs[k as int].len() == self.messages@[k as int]@.len());
            if self.messages[k].len() as u128 + n as u128 >= i64::MAX as u128 {
                return false;
            }
            k = k + 1;
        }
        true
    }

    /// Commits one publish at time `ts` and returns its acknowledgement: a
    /// known topic gets the message as its next sequence, an unknown topic is
    /// created with the message as sequence 1.
    pub fn publish(&mut self, cmd: PublishCmd, ts: i64) -> (r: PublishAck)
        requires
            old(self).wf(),
            is_valid_topic(cmd.topic@),
            Self::has_room(old(self).model(), 1),
        ensures
            final(self).wf(),
            final(self).model() == apply_publish(old(self).model(), cmd@, ts),
            (r.topic_id, r.sequence) == assigned(old(self).model(), cmd@),
            r.message_id@ == cmd.message_id@,
            r.timestamp == ts,
    {
        let ghost m = self.model();
        let ghost c = cmd@;
        assert(m.topics.len() == self.topics@.len());
        assert(m.logs.len() == self.messages@.len());
        let found = self.find_topic(&cmd.topic);
        let ack_id = cmd.message_id.clone();
        match found {
            Some(k) => {
                assert(m.logs[k as int].len() == self.messages@[k as int]@.len());
                let topic_id = k as i64 + 1;
                let sequence = self.messages[k].len() as i64 + 1;
                let msg = StoredMessage {
                    topic_id,
                    sequence,
                    message_id: cmd.message_id,
                    payload: cmd.payload,
                    attributes: cmd.attributes,
                    timestamp: ts,
                };
                let mut row: Vec<StoredMessage> = Vec::new();
                std::mem::swap(&mut row, &mut self.messages[k]);
                row.push(msg);
                let ghost row_view = row@;
                self.messages.set(k, row);
                proof {
                    let m2 = self.model();
                    let expect = apply_publish(m, c, ts);
                    assert(row_view.map_values(|s: StoredMessage| s@) =~= m.logs[k as int].push(
                        stored_from(c, topic_id, sequence, ts),
                    ));
                    assert(m2.topics =~= expect.topics);
                    assert(m2.logs =~= expect.logs);
                    assert(Self::model_wf(m2));
                }
                PublishAck { topic_id, message_id: ack_id, sequence, timestamp: ts }
            },
            None => {
                let topic_id = self.topics.len() as i64 + 1;
                let msg = StoredMessage {
                    topic_id,
                    sequence: 1,
                    message_id: cmd.message_id,
                    payload: cmd.payload,
                    attributes: cmd.attributes,
                    timestamp: ts,
                };
                let record = TopicRecord { id: topic_id, name: cmd.topic, created_at: ts };
                self.topics.push(record);
                let mut row: Vec<StoredMessage> = Vec::new();
                row.push(msg);
                self.messages.push(row);
                proof {
                    let m2 = self.model();
                    let expect = apply_publish(m, c, ts);
                    assert(row@.map_values(|s: StoredMessage| s@) =~= seq![
                        stored_from(c, topic_id, 1, ts),
                    ]);
                    assert(m2.topics =~= expect.topics);
                    assert(m2.logs =~= expect.logs);
                    assert(Self::model_wf(m2));
                }
                PublishAck { topic_id, message_id: ack_id, sequence: 1, timestamp: ts }
            },
        }
    }

    /// Commits a batch of publishes, in order, all at time `ts`: each gets the
    /// next sequence of its topic, and a topic that does not exist yet is
    /// created by its first publish. Returns the acknowledgements in the
    /// order of `cmds`, and one notification for each topic written, with the
    /// topic's new highest sequence.
    pub fn publish_batch(&mut self, cmds: &Vec<PublishCmd>, ts: i64) -> (r: BatchOutcome)
        requires
            old(self).wf(),
            forall|i: int| 0 <= i < cmds@.len() ==> is_valid_topic(#[trigger] cmds@[i].topic@),
            Self::has_room(old(self).model(), cmds@.len()),
        ensures
            final(self).wf(),
            final(self).model() == apply_all(old(self).model(), cmds_view(cmds@), ts),
            extends(final(self).model(), old(self).model()),
            r.acks@.len() == cmds@.len(),
            forall|i: int|
                0 <= i < cmds@.len() ==> {
                    &&& (#[trigger] r.acks@[i].topic_id, r.acks@[i].sequence) == assigned(
                        apply_all(old(self).model(), cmds_view(cmds@).take(i), ts),
                        cmds@[i]@,
                    )
                    &&& r.acks@[i].message_id@ == cmds@[i].message_id@
                    &&& r.acks@[i].timestamp == ts
                },
            forall|a: int|
                0 <= a < r.notifications@.len() ==> has_ack_for(
                    r.acks@,
                    #[trigger] r.notifications@[a].topic_id,
                ),
            forall|i: int|
                0 <= i < r.acks@.len() ==> has_note_for(
                    r.notifications@,
                    #[trigger] r.acks@[i].topic_id,
                ),
            notes_distinct(r.notifications@),
            forall|a: int|
                0 <= a < r.notifications@.len() ==> {
                    &&& 1 <= (#[trigger] r.notifications@[a]).topic_id
                        <= final(self).model().topics.len()
                    &&& r.notifications@[a].max_seq
                        == final(self).model().logs[r.notifications@[a].topic_id - 1].len()
                },
    {
        let ghost m0 = self.model();
        let ghost cv = cmds_view(cmds@);
        proof {
            lemma_extends_refl(m0);
        }
        let mut acks: Vec<PublishAck> = Vec::new();
        let mut i: usize = 0;
        assert(cv.take(0) =~= Seq::<CmdView>::empty());
        while i < cmds.len()
            invariant
                self.wf(),
                i <= cmds@.len(),
                cv == cmds_view(cmds@),
                forall|q: int| 0 <= q < cmds@.len() ==> is_valid_topic(#[trigger] cmds@[q].topic@),
                self.model() == apply_all(m0, cv.take(i as int), ts),
                extends(self.model(), m0),
                Self::has_room(self.model(), (cmds@.len() - i) as nat),
                acks@.len() == i,
                forall|q: int|
                    0 <= q < i ==> {
                        &&& (#[trigger] acks@[q].topic_id, acks@[q].sequence) == assigned(
                            apply_all(m0, cv.take(q), ts),
                            cmds@[q]@,
                        )
                        &&& acks@[q].message_id@ == cmds@[q].message_id@
                        &&& acks@[q].timestamp == ts
                        &&& 1 <= acks@[q].topic_id <= self.model().topics.len()
                    },
            decreases cmds@.len() - i,
        {
            let cmd = cmds[i].duplicate();
            let ghost before = self.model();
            proof {
                lemma_room_after_publish(before, cmd@, ts, (cmds@.len() - i - 1) as nat);
                lemma_topic_index_in_range(before.topics, cmd@.topic);
                assert(cv.take(i + 1).drop_last() =~= cv.take(i as int));
                assert(cv.take(i + 1).last() == cmd@);
            }
            let ack = self.publish(cmd, ts);
            proof {
                lemma_publish_extends(before, cmd@, ts);
                lemma_extends_trans(self.model(), before, m0);
            }
            acks.push(ack);
            i = i + 1;
        }
        assert(cv.take(cmds@.len() as int) =~= cv);
        let notifications = self.notes_for(&acks);
        BatchOutcome { acks, notifications }
    }

    /// One notification per distinct topic of `acks`, with that topic's
    /// highest sequence.
    fn notes_for(&self, acks: &Vec<PublishAck>) -> (r: Vec<NewDataNotification>)
        requires
            self.wf(),
            forall|q: int|
                0 <= q < acks@.len() ==> 1 <= (#[trigger] acks@[q]).topic_id
                    <= self.model().topics.len(),
        ensures
            forall|a: int|
                0 <= a < r@.len() ==> has_ack_for(acks@, #[trigger] r@[a].topic_id),
            forall|i: int| 0 <= i < acks@.len() ==> has_note_for(r@, #[trigger] acks@[i].topic_id),
            notes_distinct(r@),
            forall|a: int|
                0 <= a < r@.len() ==> {
                    &&& 1 <= (#[trigger] r@[a]).topic_id <= self.model().topics.len()
                    &&& r@[a].max_seq == self.model().logs[r@[a].topic_id - 1].len()
                },
    {
        let ghost m = self.model();
        let mut notes: Vec<NewDataNotification> = Vec::new();
        let mut j: usize = 0;
        while j < acks.len()
            invariant
                m == self.model(),
                self.wf(),
                j <= acks@.len(),
                forall|q: int|
                    0 <= q < acks@.len() ==> 1 <= (#[trigger] acks@[q]).topic_id <= m.topics.len(),
                forall|a: int|
                    0 <= a < notes@.len() ==> has_ack_for(acks@, #[trigger] notes@[a].topic_id),
                forall|q: int| 0 <= q < j ==> has_note_for(notes@, #[trigger] acks@[q].topic_id),
                notes_distinct(notes@),
                forall|a: int|
                    0 <= a < notes@.len() ==> {
                        &&& 1 <= (#[trigger] notes@[a]).topic_id <= m.topics.len()
                        &&& notes@[a].max_seq == m.logs[notes@[a].topic_id - 1].len()
                    },
            decreases acks@.len() - j,
        {
            let tid = acks[j].topic_id;
            assert(has_ack_for(acks@, tid)) by {
                assert(acks@[j as int].topic_id == tid);
            }
            if !note_present(&notes, tid) {
                assert(m.topics.len() == self.topics@.len());
                assert(1 <= acks@[j as int].topic_id <= m.topics.len());
                let nt = self.topics.len();
                assert(1 <= tid <= nt);
                let k = (tid - 1) as usize;
                assert(k as int == tid - 1);
                assert(m.logs[k as int].len() == self.messages@[k as int]@.len());
                assert(m.logs[k as int].len() <= i64::MAX);
                let max_seq = self.messages[k].len() as i64;
                let ghost old_notes = notes@;
                notes.push(NewDataNotification { topic_id: tid, max_seq });
                assert forall|a: int| 0 <= a < notes@.len() implies {
                    &&& 1 <= (#[trigger] notes@[a]).topic_id <= m.topics.len()
                    &&& notes@[a].max_seq == m.logs[notes@[a].topic_id - 1].len()
                } by {
                    if a < old_notes.len() {
                        assert(notes@[a] == old_notes[a]);
                    }
                }
                assert forall|q: int| 0 <= q < j + 1 implies has_note_for(
                    notes@,
                    #[trigger] acks@[q].topic_id,
                ) by {
                    if q < j {
                        let a = choose|a: int|
                            0 <= a < old_notes.len() && #[trigger] old_notes[a].topic_id
                                == acks@[q].topic_id;
                        assert(notes@[a] == old_notes[a]);
                    } else {
                        assert(notes@[old_notes.len() as int].topic_id == tid);
                    }
                }
                assert forall|a: int| 0 <= a < notes@.len() implies has_ack_for(
                    acks@,
                    #[trigger] notes@[a].topic_id,
                ) by {
                    if a < old_notes.len() {
                        assert(notes@[a] == old_notes[a]);
                    }
                }
            } else {
                assert forall|q: int| 0 <= q < j + 1 implies has_note_for(
                    notes@,
                    #[trigger] acks@[q].topic_id,
                ) by {}
            }
            j = j + 1;
        }
        notes
    }

    /// A mark of the log as it stands, to roll back to.
    pub fn mark(&self) -> (r: LogMark)
        requires
            self.wf(),
        ensures
            r.wf(),
            r.spec_model() == self.model(),
    {
        let ghost m = self.model();
        let mut lens: Vec<usize> = Vec::new();
        let mut k: usize = 0;
        while k < self.messages.len()
            invariant
                m == self.model(),
                self.wf(),
                k <= self.messages@.len(),
                lens@.len() == k,
                forall|q: int| 0 <= q < k ==> #[trigger] lens@[q] == m.logs[q].len(),
            decreases self.messages@.len() - k,
        {
            assert(m.logs[k as int].len() == self.messages@[k as int]@.len());
            lens.push(self.messages[k].len());
            k = k + 1;
        }
        LogMark { topic_count: self.topics.len(), lens, model: Ghost(m) }
    }

    /// Puts the log back as it stood at `mark`, forgetting every topic and
    /// message added since.
    pub fn rollback(&mut self, mark: &LogMark)
        requires
            old(self).wf(),
            mark.wf(),
            extends(old(self).model(), mark.spec_model()),
        ensures
            final(self).wf(),
            final(self).model() == mark.spec_model(),
    {
        let ghost m = self.model();
        let ghost target = mark.spec_model();
        let n = mark.topic_count;
        self.topics.truncate(n);
        self.messages.truncate(n);
        let mut k: usize = 0;
        while k < n
            invariant
                n == target.topics.len(),
                mark.wf(),
                target == mark.spec_model(),
                extends(m, target),
                self.topics@.len() == n,
                self.messages@.len() == n,
                self.topics@.map_values(|t: TopicRecord| t@) == target.topics,
                k <= n,
                forall|q: int|
                    0 <= q < k ==> (#[trigger] self.messages@[q])@.map_values(
                        |x: StoredMessage| x@,
                    ) == target.logs[q],
                forall|q: int|
                    k <= q < n ==> (#[trigger] self.messages@[q])@.map_values(
                        |x: StoredMessage| x@,
                    ) == m.logs[q],
            decreases n - k,
        {
            let keep = mark.lens[k];
            let mut cell: Vec<StoredMessage> = Vec::new();
            std::mem::swap(&mut cell, &mut self.messages[k]);
            let ghost full = cell@;
            cell.truncate(keep);
            proof {
                assert(cell@ == full.take(keep as int));
                assert(cell@.map_values(|x: StoredMessage| x@) =~= m.logs[k as int].take(
                    keep as int,
                ));
            }
            let ghost before = self.messages@;
            self.messages.set(k, cell);
            proof {
                assert forall|q: int| 0 <= q < n && q != k implies self.messages@[q] == before[q] by {}
            }
            k = k + 1;
        }
        proof {
            let m2 = self.model();
            assert(m2.topics =~= target.topics);
            assert(m2.logs =~= target.logs);
        }
    }

    /// The number of topics.
    pub fn topic_count(&self) -> (r: usize)
        requires
            self.wf(),
        ensures
            r == self.model().topics.len(),
    {
        self.topics.len()
    }

    /// The highest committed sequence of a topic, or 0 for an unknown topic.
    pub fn max_seq(&self, topic_id: i64) -> (r: i64)
        requires
            self.wf(),
        ensures
            1 <= topic_id <= self.model().topics.len() ==> r == self.model().logs[topic_id
                - 1].len(),
            !(1 <= topic_id <= self.model().topics.len()) ==> r == 0,
    {
        let ghost m = self.model();
        if topic_id < 1 || topic_id as u64 > self.topics.len() as u64 {
            return 0;
        }
        let k = (topic_id - 1) as usize;
        assert(m.logs[k as int].len() == self.messages@[k as int]@.len());
        self.messages[k].len() as i64
    }

    /// The id of the topic named `name`, if it exists.
    pub fn topic_id_of(&self, name: &String) -> (r: Option<i64>)
        requires
            self.wf(),
        ensures
            r == (match topic_index(self.model().topics, name@) {
                Some(k) => Some((k + 1) as i64),
                None => None::<i64>,
            }),
    {
        match self.find_topic(name) {
            Some(k) => Some(k as i64 + 1),
            None => None,
        }
    }

    /// Up to `limit` messages of a topic with a sequence above `after_seq`,
    /// in sequence order. An unknown topic has none.
    pub fn fetch_range(&self, topic_id: i64, after_seq: i64, limit: usize) -> (r: Vec<
        StoredMessage,
    >)
        requires
            self.wf(),
        ensures
            !(1 <= topic_id <= self.model().topics.len()) ==> r@.len() == 0,
            1 <= topic_id <= self.model().topics.len() ==> {
                let log = self.model().logs[topic_id - 1];
                let s = range_start(after_seq, log.len());
                &&& r@.map_values(|x: StoredMessage| x@) == log.subrange(
                    s,
                    range_end(s, limit as nat, log.len()),
                )
                &&& forall|i: int|
                    0 <= i < r@.len() ==> (#[trigger] r@[i]).sequence == s + i + 1
            },
    {
        let ghost m = self.model();
        let mut out: Vec<StoredMessage> = Vec::new();
        if topic_id < 1 || topic_id as u64 > self.topics.len() as u64 {
            return out;
        }
        let k = (topic_id - 1) as usize;
        let row = &self.messages[k];
        let ghost log = m.logs[k as int];
        assert(log == row@.map_values(|x: StoredMessage| x@));
        let len = row.len();
        let start: usize = if after_seq < 0 {
            0
        } else if after_seq as u64 > len as u64 {
            len
        } else {
            after_seq as usize
        };
        let end: usize = if limit > len - start {
            len
        } else {
            start + limit
        };
        let mut i: usize = start;
        while i < end
            invariant
                m == self.model(),
                self.wf(),
                row == &self.messages@[k as int],
                log == row@.map_values(|x: StoredMessage| x@),
                log == m.logs[k as int],
                0 <= k < m.logs.len(),
                len == row@.len(),
                start <= i <= end <= len,
                out@.len() == i - start,
                forall|q: int| 0 <= q < out@.len() ==> (#[trigger] out@[q])@ == log[start + q],
            decreases end - i,
        {
            let x = row[i].duplicate();
            out.push(x);
            i = i + 1;
        }
        proof {
            assert(start == range_start(after_seq, log.len()));
            assert(end == range_end(start as int, limit as nat, log.len()));
            assert(out@.map_values(|x: StoredMessage| x@) =~= log.subrange(start as int, end as int));
            assert forall|q: int| 0 <= q < out@.len() implies (#[trigger] out@[q]).sequence == start
                + q + 1 by {
                assert(out@[q]@ == log[start + q]);
            }
        }
        out
    }

    /// Appends a persisted message to the log of topic `k`, where it takes
    /// the next sequence.
    pub(crate) fn append_row(&mut self, k: usize, row: StoredMessage)
        requires
            old(self).wf(),
            k < old(self).model().topics.len(),
            row.topic_id == k + 1,
            row.sequence == old(self).model().logs[k as int].len() + 1,
        ensures
            final(self).wf(),
            final(self).model() == (LogModel {
                topics: old(self).model().topics,
                logs: old(self).model().logs.update(
                    k as int,
                    old(self).model().logs[k as int].push(row@),
                ),
            }),
    {
        let ghost m = self.model();
        let ghost rw = row@;
        assert(m.logs[k as int] == self.messages@[k as int]@.map_values(|s: StoredMessage| s@));
        let mut cell: Vec<StoredMessage> = Vec::new();
        std::mem::swap(&mut cell, &mut self.messages[k]);
        cell.push(row);
        let ghost cv = cell@;
        self.messages.set(k, cell);
        proof {
            let m2 = self.model();
            assert(cv.map_values(|s: StoredMessage| s@) =~= m.logs[k as int].push(rw));
            assert(m2.topics =~= m.topics);
            assert(m2.logs =~= m.logs.update(k as int, m.logs[k as int].push(rw)));
            assert(Self::model_wf(m2));
        }
    }

    /// A log of the given topics, none of which has a message yet.
    pub(crate) fn with_empty_logs(topics: &Vec<TopicRecord>) -> (r: MessageLog)
        requires
            topics_fit(topics@.map_values(|t: TopicRecord| t@)),
        ensures
            r.wf(),
            r.model().topics == topics@.map_values(|t: TopicRecord| t@),
            r.model().logs == empty_logs(topics@.len()),
    {
        let ghost tv = topics@.map_values(|t: TopicRecord| t@);
        let n = topics.len();
        let mut copies: Vec<TopicRecord> = Vec::new();
        let mut messages: Vec<Vec<StoredMessage>> = Vec::new();
        let mut k: usize = 0;
        while k < n
            invariant
                n == topics@.len(),
                tv == topics@.map_values(|t: TopicRecord| t@),
                k <= n,
                messages@.len() == k,
                copies@.len() == k,
                forall|q: int| 0 <= q < k ==> (#[trigger] messages@[q])@.len() == 0,
                forall|q: int| 0 <= q < k ==> (#[trigger] copies@[q])@ == tv[q],
            decreases n - k,
        {
            let t = &topics[k];
            assert(tv[k as int] == topics@[k as int]@);
            copies.push(TopicRecord { id: t.id, name: t.name.clone(), created_at: t.created_at });
            messages.push(Vec::new());
            k = k + 1;
        }
        let log = MessageLog { topics: copies, messages };
        proof {
            let m = log.model();
            assert(m.topics =~= tv);
            assert forall|q: int| 0 <= q < n implies m.logs[q] =~= Seq::<MessageView>::empty() by {
                assert(log.messages@[q]@.len() == 0);
            }
            assert(m.logs =~= empty_logs(n as nat));
        }
        log
    }

    /// The persisted form of the log: its topics in id order, and every
    /// message, topic by topic in sequence order.
    pub fn snapshot(&self) -> (r: (Vec<TopicRecord>, Vec<StoredMessage>))
        requires
            self.wf(),
        ensures
            r.0@.map_values(|t: TopicRecord| t@) == self.model().topics,
            r.1@.map_values(|x: StoredMessage| x@) == flatten(self.model().logs),
    {
        let ghost m = self.model();
        let mut topics: Vec<TopicRecord> = Vec::new();
        let mut rows: Vec<StoredMessage> = Vec::new();
        let mut k: usize = 0;
        while k < self.topics.len()
            invariant
                m == self.model(),
                self.wf(),
                k <= self.topics@.len(),
                m.topics.len() == self.topics@.len(),
                topics@.len() == k,
                topics@.map_values(|t: TopicRecord| t@) == m.topics.take(k as int),
                rows@.map_values(|x: StoredMessage| x@) == flatten(m.logs.take(k as int)),
            decreases self.topics@.len() - k,
        {
            let t = &self.topics[k];
            let copy = TopicRecord { id: t.id, name: t.name.clone(), created_at: t.created_at };
            assert(copy@ == m.topics[k as int]);
            let ghost tb = topics@;
            topics.push(copy);
            proof {
                assert(topics@ == tb.push(copy));
                let tm = topics@.map_values(|t: TopicRecord| t@);
                assert(tm.len() == k + 1);
                assert forall|q: int| 0 <= q < k + 1 implies tm[q] == m.topics.take(k + 1)[q] by {
                    if q < k {
                        assert(topics@[q] == tb[q]);
                        assert(tb.map_values(|t: TopicRecord| t@)[q] == m.topics.take(k as int)[q]);
                    }
                }
                assert(tm =~= m.topics.take(k + 1));
            }
            let row = &self.messages[k];
            let ghost log = m.logs[k as int];
            assert(log == row@.map_values(|x: StoredMessage| x@));
            let ghost base = rows@.map_values(|x: StoredMessage| x@);
            assert(log.len() == row@.len());
            let mut j: usize = 0;
            while j < row.len()
                invariant
                    k < self.messages@.len(),
                    row == &self.messages@[k as int],
                    log == row@.map_values(|x: StoredMessage| x@),
                    log.len() == row@.len(),
                    j <= row@.len(),
                    rows@.len() == base.len() + j,
                    rows@.map_values(|x: StoredMessage| x@) == base + log.take(j as int),
                decreases row@.len() - j,
            {
                let x = row[j].duplicate();
                assert(x@ == log[j as int]);
                let ghost rb = rows@;
                rows.push(x);
                proof {
                    assert(rows@ == rb.push(x));
                    let rm = rows@.map_values(|x: StoredMessage| x@);
                    let want = base + log.take(j + 1);
                    assert(rm.len() == want.len());
                    assert forall|q: int| 0 <= q < rm.len() implies rm[q] == want[q] by {
                        if q < rb.len() {
                            assert(rows@[q] == rb[q]);
                            assert(rb.map_values(|x: StoredMessage| x@)[q] == (base + log.take(
                                j as int,
                            ))[q]);
                        }
                    }
                    assert(rm =~= want);
                }
                j = j + 1;
            }
            proof {
                assert(log.take(row@.len() as int) =~= log);
                lemma_flatten_step(m.logs, k as int);
            }
            k = k + 1;
        }
        assert(m.topics.take(m.topics.len() as int) =~= m.topics);
        assert(m.logs.take(m.logs.len() as int) =~= m.logs);
        (topics, rows)
    }

    /// Every topic with its creation time, in ascending byte order of the
    /// names.
    pub fn list_topics(&self) -> (r: Vec<(String, i64)>)
        requires
            self.wf(),
        ensures
            r@.len() == self.model().topics.len(),
            names_ascending(r@),
            forall|t: int|
                0 <= t < self.model().topics.len() ==> #[trigger] shows(
                    r@,
                    self.model().topics[t],
                ),
            forall|p: int|
                0 <= p < r@.len() ==> #[trigger] drawn_from(
                    r@[p],
                    self.model().topics,
                    self.model().topics.len() as int,
                ),
    {
        let ghost m = self.model();
        let mut out: Vec<(String, i64)> = Vec::new();
        let mut k: usize = 0;
        while k < self.topics.len()
            invariant
                m == self.model(),
                self.wf(),
                k <= self.topics@.len(),
                out@.len() == k,
                names_ascending(out@),
                forall|t: int| 0 <= t < k ==> #[trigger] shows(out@, m.topics[t]),
                forall|q: int|
                    0 <= q < out@.len() ==> #[trigger] drawn_from(out@[q], m.topics, k as int),
            decreases self.topics@.len() - k,
        {
            assert(m.topics[k as int] == self.topics@[k as int]@);
            let name = self.topics[k].name.clone();
            let created = self.topics[k].created_at;
            let mut p: usize = 0;
            let mut stop = false;
            while !stop && p < out.len()
                invariant
                    m == self.model(),
                    self.wf(),
                    k < self.topics@.len(),
                    m.topics[k as int].name == name@,
                    out@.len() == k,
                    p <= out@.len(),
                    forall|q: int|
                        0 <= q < out@.len() ==> #[trigger] drawn_from(
                            out@[q],
                            m.topics,
                            k as int,
                        ),
                    forall|q: int|
                        0 <= q < p ==> bytes_lt(
                            encode_utf8((#[trigger] out@[q]).0@),
                            encode_utf8(name@),
                        ),
                    stop ==> p < out@.len() && bytes_lt(
                        encode_utf8(name@),
                        encode_utf8(out@[p as int].0@),
                    ),
                decreases out@.len() - p + (if stop {
                    0int
                } else {
                    1int
                }),
            {
                let c = compare_bytes(out[p].0.as_str().as_bytes(), name.as_str().as_bytes());
                if c > 0 {
                    stop = true;
                } else {
                    if c == 0 {
                        proof {
                            assert(drawn_from(out@[p as int], m.topics, k as int));
                            let t = choose|t: int|
                                0 <= t < k && #[trigger] listed(out@[p as int], m.topics[t]);
                            encode_utf8_decode_utf8(out@[p as int].0@);
                            encode_utf8_decode_utf8(name@);
                            assert(m.topics[t].name == m.topics[k as int].name);
                        }
                    }
                    p = p + 1;
                }
            }
            let ghost before = out@;
            let ghost x = (name, created);
            proof {
                assert forall|q: int| p <= q < before.len() implies bytes_lt(
                    encode_utf8(x.0@),
                    encode_utf8((#[trigger] before[q]).0@),
                ) by {
                    if q > p {
                        lemma_bytes_lt_transitive(
                            encode_utf8(name@),
                            encode_utf8(before[p as int].0@),
                            encode_utf8(before[q].0@),
                        );
                    }
                }
                lemma_insert_keeps_ascending(before, p as int, x);
                lemma_insert_listing(before, p as int, x, m.topics, k as int);
            }
            out.insert(p, (name, created));
            assert(out@ == before.insert(p as int, x));
            k = k + 1;
        }
        out
    }
}

/// `a` is `b` with topics and messages added: every topic of `b` keeps its
/// place and every message of `b` its place and contents.
pub open spec fn extends(a: LogModel, b: LogModel) -> bool {
    &&& b.topics.len() <= a.topics.len()
    &&& b.logs.len() <= a.logs.len()
    &&& a.topics.take(b.topics.len() as int) == b.topics
    &&& forall|k: int|
        0 <= k < b.logs.len() ==> (#[trigger] b.logs[k]).len() <= a.logs[k].len() && a.logs[k].take(
            b.logs[k].len() as int,
        ) == b.logs[k]
}

proof fn lemma_extends_refl(m: LogModel)
    ensures
        extends(m, m),
{
    assert(m.topics.take(m.topics.len() as int) =~= m.topics);
    assert forall|k: int| 0 <= k < m.logs.len() implies m.logs[k].take(
        m.logs[k].len() as int,
    ) == m.logs[k] by {
        assert(m.logs[k].take(m.logs[k].len() as int) =~= m.logs[k]);
    }
}

proof fn lemma_extends_trans(a: LogModel, b: LogModel, c: LogModel)
    requires
        extends(a, b),
        extends(b, c),
    ensures
        extends(a, c),
{
    assert(a.topics.take(c.topics.len() as int) =~= b.topics.take(c.topics.len() as int));
    assert forall|k: int| 0 <= k < c.logs.len() implies (#[trigger] c.logs[k]).len() <= a.logs[k].len()
        && a.logs[k].take(c.logs[k].len() as int) == c.logs[k] by {
        assert(a.logs[k].take(c.logs[k].len() as int) =~= b.logs[k].take(c.logs[k].len() as int));
    }
}

proof fn lemma_publish_extends(m: LogModel, c: CmdView, ts: i64)
    requires
        m.topics.len() == m.logs.len(),
    ensures
        extends(apply_publish(m, c, ts), m),
{
    lemma_topic_index_in_range(m.topics, c.topic);
    let a = apply_publish(m, c, ts);
    assert(a.topics.take(m.topics.len() as int) =~= m.topics);
    assert forall|k: int| 0 <= k < m.logs.len() implies (#[trigger] m.logs[k]).len() <= a.logs[k].len()
        && a.logs[k].take(m.logs[k].len() as int) == m.logs[k] by {
        assert(a.logs[k].take(m.logs[k].len() as int) =~= m.logs[k]);
    }
}

/// A batch only adds to the log: every topic and message that stood before
/// it keeps its place and contents. So a mark taken before a batch can always
/// be rolled back to, and a batch whose commit fails leaves no message and
/// no gap behind.
pub proof fn lemma_batch_extends(before: LogModel, cmds: Seq<CmdView>, ts: i64)
    requires
        before.topics.len() == before.logs.len(),
    ensures
        extends(apply_all(before, cmds, ts), before),
        apply_all(before, cmds, ts).topics.len() == apply_all(before, cmds, ts).logs.len(),
    decreases cmds.len(),
{
    if cmds.len() == 0 {
        lemma_extends_refl(before);
    } else {
        lemma_batch_extends(before, cmds.drop_last(), ts);
        let mid = apply_all(before, cmds.drop_last(), ts);
        lemma_publish_extends(mid, cmds.last(), ts);
        lemma_extends_trans(apply_all(before, cmds, ts), mid, before);
        lemma_topic_index_in_range(mid.topics, cmds.last().topic);
    }
}

/// Where the log stood when a batch began.
pub struct LogMark {
    topic_count: usize,
    lens: Vec<usize>,
    model: Ghost<LogModel>,
}

impl LogMark {
    pub closed spec fn spec_model(&self) -> LogModel {
        self.model@
    }

    pub closed spec fn wf(&self) -> bool {
        &&& MessageLog::model_wf(self.model@)
        &&& self.topic_count == self.model@.topics.len()
        &&& self.lens@.len() == self.model@.logs.len()
        &&& forall|q: int| 0 <= q < self.lens@.len() ==> #[trigger] self.lens@[q] == self.model@.logs[q].len()
    }
}

/// Some acknowledgement names topic `tid`.
pub open spec fn has_ack_for(acks: Seq<PublishAck>, tid: i64) -> bool {
    exists|i: int| 0 <= i < acks.len() && #[trigger] acks[i].topic_id == tid
}

/// Some notification names topic `tid`.
pub open spec fn has_note_for(notes: Seq<NewDataNotification>, tid: i64) -> bool {
    exists|a: int| 0 <= a < notes.len() && #[trigger] notes[a].topic_id == tid
}

/// No two notifications name the same topic.
pub open spec fn notes_distinct(notes: Seq<NewDataNotification>) -> bool {
    forall|a: int, b: int|
        0 <= a < notes.len() && 0 <= b < notes.len() && a != b ==> (#[trigger] notes[a]).topic_id
            != (#[trigger] notes[b]).topic_id
}

fn note_present(notes: &Vec<NewDataNotification>, tid: i64) -> (r: bool)
    ensures
        r == has_note_for(notes@, tid),
{
    let mut a: usize = 0;
    while a < notes.len()
        invariant
            a <= notes@.len(),
            forall|b: int| 0 <= b < a ==> (#[trigger] notes@[b]).topic_id != tid,
        decreases notes@.len() - a,
    {
        if notes[a].topic_id == tid {
            return true;
        }
        a = a + 1;
    }
    false
}

proof fn lemma_topic_index_in_range(topics: Seq<TopicView>, name: Seq<char>)
    ensures
        topic_index(topics, name) matches Some(k) ==> 0 <= k < topics.len() && topics[k].name
            == name,
        topic_index(topics, name) is None ==> forall|i: int|
            0 <= i < topics.len() ==> (#[trigger] topics[i]).name != name,
{
}

proof fn lemma_room_after_publish(m: LogModel, c: CmdView, ts: i64, n: nat)
    requires
        MessageLog::model_wf(m),
        MessageLog::has_room(m, n + 1),
    ensures
        MessageLog::has_room(apply_publish(m, c, ts), n),
{
    lemma_topic_index_in_range(m.topics, c.topic);
    let m2 = apply_publish(m, c, ts);
    assert forall|k: int| 0 <= k < m2.logs.len() implies (#[trigger] m2.logs[k]).len() + n
        < i64::MAX by {
        if k < m.logs.len() {
            assert(m.logs[k].len() + n + 1 < i64::MAX);
        }
    }
}

/// A listing entry shows topic `t`: its name and creation time.
pub open spec fn listed(e: (String, i64), t: TopicView) -> bool {
    e.0@ == t.name && e.1 == t.created_at
}

/// Names strictly ascending in byte order.
pub open spec fn names_ascending(s: Seq<(String, i64)>) -> bool {
    forall|a: int, b: int|
        0 <= a < b < s.len() ==> bytes_lt(
            encode_utf8((#[trigger] s[a]).0@),
            encode_utf8((#[trigger] s[b]).0@),
        )
}

/// Some entry of the listing shows topic `t`.
pub open spec fn shows(r: Seq<(String, i64)>, t: TopicView) -> bool {
    exists|p: int| 0 <= p < r.len() && #[trigger] listed(r[p], t)
}

/// The entry shows one of the first `upto` topics.
pub open spec fn drawn_from(e: (String, i64), topics: Seq<TopicView>, upto: int) -> bool {
    exists|t: int| 0 <= t < upto && #[trigger] listed(e, topics[t])
}

proof fn lemma_insert_keeps_ascending(before: Seq<(String, i64)>, p: int, x: (String, i64))
    requires
        names_ascending(before),
        0 <= p <= before.len(),
        forall|q: int|
            0 <= q < p ==> bytes_lt(encode_utf8((#[trigger] before[q]).0@), encode_utf8(x.0@)),
        forall|q: int|
            p <= q < before.len() ==> bytes_lt(
                encode_utf8(x.0@),
                encode_utf8((#[trigger] before[q]).0@),
            ),
    ensures
        names_ascending(before.insert(p, x)),
{
    let after = before.insert(p, x);
    assert forall|a: int, b: int| 0 <= a < b < after.len() implies bytes_lt(
        encode_utf8((#[trigger] after[a]).0@),
        encode_utf8((#[trigger] after[b]).0@),
    ) by {
        if b < p {
            assert(after[a] == before[a] && after[b] == before[b]);
        } else if b == p {
            assert(after[a] == before[a]);
        } else if a < p {
            assert(after[a] == before[a] && after[b] == before[b - 1]);
        } else if a == p {
            assert(after[b] == before[b - 1]);
        } else {
            assert(after[a] == before[a - 1] && after[b] == before[b - 1]);
        }
    }
}

proof fn lemma_insert_listing(
    before: Seq<(String, i64)>,
    p: int,
    x: (String, i64),
    topics: Seq<TopicView>,
    k: int,
)
    requires
        0 <= p <= before.len(),
        0 <= k < topics.len(),
        listed(x, topics[k]),
        forall|t: int| 0 <= t < k ==> #[trigger] shows(before, topics[t]),
        forall|q: int| 0 <= q < before.len() ==> #[trigger] drawn_from(before[q], topics, k),
    ensures
        forall|t: int| 0 <= t < k + 1 ==> #[trigger] shows(before.insert(p, x), topics[t]),
        forall|q: int|
            0 <= q < before.len() + 1 ==> #[trigger] drawn_from(
                before.insert(p, x)[q],
                topics,
                k + 1,
            ),
{
    let after = before.insert(p, x);
    assert forall|t: int| 0 <= t < k + 1 implies #[trigger] shows(after, topics[t]) by {
        if t < k {
            assert(shows(before, topics[t]));
            let q0 = choose|q: int| 0 <= q < before.len() && #[trigger] listed(before[q], topics[t]);
            if q0 < p {
                assert(after[q0] == before[q0]);
                assert(listed(after[q0], topics[t]));
            } else {
                assert(after[q0 + 1] == before[q0]);
                assert(listed(after[q0 + 1], topics[t]));
            }
        } else {
            assert(listed(after[p], topics[t]));
        }
    }
    assert forall|q: int| 0 <= q < before.len() + 1 implies #[trigger] drawn_from(
        after[q],
        topics,
        k + 1,
    ) by {
        if q < p {
            assert(drawn_from(before[q], topics, k));
            let t0 = choose|t: int| 0 <= t < k && #[trigger] listed(before[q], topics[t]);
            assert(listed(after[q], topics[t0]));
        } else if q == p {
            assert(listed(after[q], topics[k]));
        } else {
            assert(drawn_from(before[q - 1], topics, k));
            let t0 = choose|t: int| 0 <= t < k && #[trigger] listed(before[q - 1], topics[t]);
            assert(listed(after[q], topics[t0]));
        }
    }
}

/// In a well-formed log, the committed sequences of every topic are exactly
/// `1..=n`, where `n` is the number of its messages.
pub proof fn lemma_sequences_dense(log: &MessageLog, k: int, s: int)
    requires
        log.wf(),
        0 <= k < log.model().logs.len(),
    ensures
        (exists|j: int|
            0 <= j < log.model().logs[k].len() && #[trigger] log.model().logs[k][j].sequence == s)
            <==> 1 <= s <= log.model().logs[k].len(),
{
    let l = log.model().logs[k];
    if 1 <= s <= l.len() {
        assert(l[s - 1].sequence == s);
    }
}

/// Publishing never rewrites history: every message already committed keeps
/// its place and its contents, and no topic's log gets shorter.
pub proof fn lemma_publish_appends(m: LogModel, c: CmdView, ts: i64, k: int, j: int)
    requires
        MessageLog::model_wf(m),
        0 <= k < m.logs.len(),
        0 <= j < m.logs[k].len(),
    ensures
        apply_publish(m, c, ts).logs[k][j] == m.logs[k][j],
        apply_publish(m, c, ts).logs[k].len() >= m.logs[k].len(),
{
    lemma_topic_index_in_range(m.topics, c.topic);
}

} // verus!
