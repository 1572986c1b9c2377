use vstd::prelude::*;

use crate::log::{MessageLog, MessageView, StoredMessage, TopicRecord, TopicView, LogModel};
use crate::publish::{is_valid_topic, validate_topic};

verus! {

impl MessageLog {
    /// Rebuilds the log from its persisted form: topics in id order, and
    /// messages in which each topic's come in sequence order. Refuses state
    /// that breaks the log's rules: topic ids out of place, a bad or repeated
    /// name, a message of an unknown topic, or a sequence that skips.
    pub fn restore(topics: Vec<TopicRecord>, rows: Vec<StoredMessage>) -> (r: Result<
        MessageLog,
        RecoveryError,
    >)
        ensures
            r is Ok <==> (topics_fit(topics@.map_values(|t: TopicRecord| t@)) && rows_fit(
                topics@.len(),
                rows@.map_values(|x: StoredMessage| x@),
            )),
            r matches Ok(log) ==> {
                &&& log.wf()
                &&& log.model().topics == topics@.map_values(|t: TopicRecord| t@)
                &&& log.model().logs == group_rows(
                    empty_logs(topics@.len()),
                    rows@.map_values(|x: StoredMessage| x@),
                )
            },
    {
        let ghost tv = topics@.map_values(|t: TopicRecord| t@);
        let ghost rv = rows@.map_values(|x: StoredMessage| x@);
        let ghost tlen = topics@.len();
        let n = topics.len();
        match check_topics(&topics) {
            Ok(()) => {},
            Err(e) => {
                return Err(e);
            },
        }
        assert(topics_fit(tv));
        let mut log = MessageLog::with_empty_logs(&topics);
        proof {
            reveal(rows_fit);
            assert(rv.take(0) =~= Seq::<MessageView>::empty());
            lemma_group_rows_empty(empty_logs(n as nat), rv.take(0));
        }
        let mut i: usize = 0;
        while i < rows.len()
            invariant
                log.wf(),
                log.model().topics == tv,
                n == tv.len(),
                n == tlen,
                tlen == topics@.len(),
                tv == topics@.map_values(|t: TopicRecord| t@),
                topics_fit(tv),
                rv == rows@.map_values(|x: StoredMessage| x@),
                i <= rows@.len(),
                log.model().logs == group_rows(empty_logs(n as nat), rv.take(i as int)),
                rows_fit(n as nat, rv.take(i as int)),
            decreases rows@.len() - i,
        {
            let ghost g = log.model().logs;
            assert(rv[i as int] == rows@[i as int]@);
            let tid = rows[i].topic_id;
            if tid < 1 || tid as u64 > n as u64 {
                proof {
                    assert(rv.len() == rows@.len());
                    assert(rv[i as int].topic_id == tid);
                    if rows_fit(n as nat, rv) {
                        lemma_rows_fit_at(n as nat, rv, i as int);
                    }
                    assert(!rows_fit(tlen, rv));
                }
                return Err(RecoveryError::UnknownTopic { row: i });
            }
            let kk = (tid - 1) as usize;
            let cur = log.max_seq(tid);
            if rows[i].sequence as i128 != cur as i128 + 1 {
                proof {
                    assert(rv.len() == rows@.len());
                    assert(rv[i as int].topic_id == tid);
                    assert(rv[i as int].sequence == rows@[i as int].sequence);
                    assert(cur == g[tid - 1].len());
                    if rows_fit(n as nat, rv) {
                        lemma_rows_fit_at(n as nat, rv, i as int);
                    }
                    assert(!rows_fit(tlen, rv));
                }
                return Err(RecoveryError::SequenceGap { row: i });
            }
            let row = rows[i].duplicate();
            log.append_row(kk, row);
            proof {
                lemma_rows_fit_extend(n as nat, rv, i as int);
                lemma_group_rows_step(empty_logs(n as nat), rv, i as int);
            }
            i = i + 1;
        }
        assert(rv.take(rows@.len() as int) =~= rv);
        Ok(log)
    }

}

/// Checks persisted topics: ids `1..=n` in order, valid and distinct names.
fn check_topics(topics: &Vec<TopicRecord>) -> (r: Result<(), RecoveryError>)
    ensures
        r is Ok <==> topics_fit(topics@.map_values(|t: TopicRecord| t@)),
{
    let ghost tv = topics@.map_values(|t: TopicRecord| t@);
    let n = topics.len();
    if n as u64 >= i64::MAX as u64 {
        return Err(RecoveryError::TooManyTopics);
    }
    let mut k: usize = 0;
    while k < n
        invariant
            n == topics@.len(),
            n < i64::MAX,
            tv == topics@.map_values(|t: TopicRecord| t@),
            k <= n,
            forall|q: int|
                0 <= q < k ==> (#[trigger] tv[q]).id == q + 1 && is_valid_topic(tv[q].name),
            forall|a: int, b: int|
                0 <= a < k && 0 <= b < k && a != b ==> (#[trigger] tv[a]).name
                    != (#[trigger] tv[b]).name,
        decreases n - k,
    {
        assert(tv[k as int] == topics@[k as int]@);
        if topics[k].id != k as i64 + 1 {
            return Err(RecoveryError::TopicOutOfPlace { index: k });
        }
        match validate_topic(topics[k].name.as_str()) {
            Ok(()) => {},
            Err(_) => {
                return Err(RecoveryError::InvalidTopicName { index: k });
            },
        }
        let mut q: usize = 0;
        while q < k
            invariant
                n == topics@.len(),
                tv == topics@.map_values(|t: TopicRecord| t@),
                k < n,
                q <= k,
                forall|e: int| 0 <= e < q ==> (#[trigger] tv[e]).name != tv[k as int].name,
            decreases k - q,
        {
            assert(tv[q as int] == topics@[q as int]@);
            if topics[q].name == topics[k].name {
                proof {
                    assert(tv[k as int] == topics@[k as int]@);
                    assert(tv[q as int].name == tv[k as int].name);
                    assert(!topics_fit(tv));
                }
                return Err(RecoveryError::DuplicateTopic { index: k });
            }
            q = q + 1;
        }
        k = k + 1;
    }
    assert(topics_fit(tv));
    Ok(())
}

/// Why persisted state could not be loaded.
#[derive(Debug, Clone, Copy, PartialEq, Eq, Structural)]
pub enum RecoveryError {
    /// More topics than ids can number.
    TooManyTopics,
    /// The topic at this position does not carry the id `position + 1`.
    TopicOutOfPlace { index: usize },
    /// The topic at this position has a name that publishing would refuse.
    InvalidTopicName { index: usize },
    /// The topic at this position repeats an earlier name.
    DuplicateTopic { index: usize },
    /// This message names no known topic.
    UnknownTopic { row: usize },
    /// This message does not take the next sequence of its topic.
    SequenceGap { row: usize },
}

/// `n` topics without messages.
pub open spec fn empty_logs(n: nat) -> Seq<Seq<MessageView>> {
    Seq::new(n, |k: int| Seq::<MessageView>::empty())
}

/// Messages sorted into their topics' logs, in the order given.
#[verifier::opaque]
pub open spec fn group_rows(base: Seq<Seq<MessageView>>, rows: Seq<MessageView>) -> Seq<
    Seq<MessageView>,
>
    decreases rows.len(),
{
    if rows.len() == 0 {
        base
    } else {
        let g = group_rows(base, rows.drop_last());
        let k = rows.last().topic_id - 1;
        g.update(k, g[k].push(rows.last()))
    }
}

/// Topics numbered `1..=n` in order, with valid and distinct names.
pub open spec fn topics_fit(topics: Seq<TopicView>) -> bool {
    &&& topics.len() < i64::MAX
    &&& forall|q: int|
        0 <= q < topics.len() ==> (#[trigger] topics[q]).id == q + 1 && is_valid_topic(
            topics[q].name,
        )
    &&& forall|a: int, b: int|
        0 <= a < topics.len() && 0 <= b < topics.len() && a != b ==> (#[trigger] topics[a]).name
            != (#[trigger] topics[b]).name
}

/// Every message names one of `n` topics and takes the next sequence of
/// that topic, counting the messages before it.
#[verifier::opaque]
pub open spec fn rows_fit(n: nat, rows: Seq<MessageView>) -> bool {
    forall|q: int|
        0 <= q < rows.len() ==> {
            &&& 1 <= (#[trigger] rows[q]).topic_id <= n
            &&& rows[q].sequence == group_rows(empty_logs(n), rows.take(q))[rows[q].topic_id
                - 1].len() + 1
        }
}

/// Every topic's messages, topic after topic.
pub open spec fn flatten(logs: Seq<Seq<MessageView>>) -> Seq<MessageView>
    decreases logs.len(),
{
    if logs.len() == 0 {
        Seq::empty()
    } else {
        flatten(logs.drop_last()) + logs.last()
    }
}

pub(crate) proof fn lemma_flatten_step(logs: Seq<Seq<MessageView>>, j: int)
    requires
        0 <= j < logs.len(),
    ensures
        flatten(logs.take(j + 1)) == flatten(logs.take(j)) + logs[j],
{
    assert(logs.take(j + 1).drop_last() =~= logs.take(j));
}

proof fn lemma_group_rows_step(base: Seq<Seq<MessageView>>, rows: Seq<MessageView>, i: int)
    requires
        0 <= i < rows.len(),
    ensures
        group_rows(base, rows.take(i + 1)) == group_rows(base, rows.take(i)).update(
            rows[i].topic_id - 1,
            group_rows(base, rows.take(i))[rows[i].topic_id - 1].push(rows[i]),
        ),
{
    reveal(group_rows);
    assert(rows.take(i + 1).drop_last() =~= rows.take(i));
    assert(rows.take(i + 1).last() == rows[i]);
}

proof fn lemma_group_rows_empty(base: Seq<Seq<MessageView>>, rows: Seq<MessageView>)
    requires
        rows.len() == 0,
    ensures
        group_rows(base, rows) == base,
{
    reveal(group_rows);
}

proof fn lemma_rows_fit_at(n: nat, rows: Seq<MessageView>, i: int)
    requires
        0 <= i < rows.len(),
        rows_fit(n, rows),
    ensures
        1 <= rows[i].topic_id <= n,
        rows[i].sequence == group_rows(empty_logs(n), rows.take(i))[rows[i].topic_id - 1].len() + 1,
{
    reveal(rows_fit);
}

proof fn lemma_rows_fit_prefix(n: nat, rows: Seq<MessageView>, i: int)
    requires
        0 <= i <= rows.len(),
        rows_fit(n, rows),
    ensures
        rows_fit(n, rows.take(i)),
{
    reveal(rows_fit);
    assert forall|q: int| 0 <= q < i implies {
        &&& 1 <= (#[trigger] rows.take(i)[q]).topic_id <= n
        &&& rows.take(i)[q].sequence == group_rows(empty_logs(n), rows.take(i).take(q))[rows.take(
            i,
        )[q].topic_id - 1].len() + 1
    } by {
        assert(rows.take(i).take(q) =~= rows.take(q));
        assert(rows.take(i)[q] == rows[q]);
        assert(1 <= rows[q].topic_id <= n);
    }
}

proof fn lemma_rows_fit_extend(n: nat, rows: Seq<MessageView>, i: int)
    requires
        0 <= i < rows.len(),
        rows_fit(n, rows.take(i)),
        1 <= rows[i].topic_id <= n,
        rows[i].sequence == group_rows(empty_logs(n), rows.take(i))[rows[i].topic_id - 1].len() + 1,
    ensures
        rows_fit(n, rows.take(i + 1)),
{
    reveal(rows_fit);
    let t = rows.take(i + 1);
    assert forall|q: int| 0 <= q < t.len() implies {
        &&& 1 <= (#[trigger] t[q]).topic_id <= n
        &&& t[q].sequence == group_rows(empty_logs(n), t.take(q))[t[q].topic_id - 1].len() + 1
    } by {
        if q < i {
            assert(t.take(q) =~= rows.take(i).take(q));
            assert(t[q] == rows.take(i)[q]);
        } else {
            assert(t.take(q) =~= rows.take(i));
            assert(t[q] == rows[i]);
        }
    }
}

/// The logs as they stand after the first `j` topics are complete and topic
/// `j` has its first `i` messages.
pub open spec fn partly_grouped(logs: Seq<Seq<MessageView>>, j: int, i: int) -> Seq<Seq<MessageView>> {
    Seq::new(
        logs.len(),
        |k: int|
            if k < j {
                logs[k]
            } else if k == j {
                logs[j].take(i)
            } else {
                Seq::<MessageView>::empty()
            },
    )
}

proof fn lemma_grouped_prefix(m: LogModel, j: int, i: int)
    requires
        MessageLog::model_wf(m),
        0 <= j < m.logs.len(),
        0 <= i <= m.logs[j].len(),
    ensures
        rows_fit(m.logs.len(), flatten(m.logs.take(j)) + m.logs[j].take(i)),
        group_rows(empty_logs(m.logs.len()), flatten(m.logs.take(j)) + m.logs[j].take(i))
            == partly_grouped(m.logs, j, i),
    decreases j, i,
{
    reveal(rows_fit);
    let n = m.logs.len();
    let xs = flatten(m.logs.take(j)) + m.logs[j].take(i);
    if i == 0 {
        if j == 0 {
            assert(m.logs.take(0) =~= Seq::<Seq<MessageView>>::empty());
            assert(xs =~= Seq::<MessageView>::empty());
            lemma_group_rows_empty(empty_logs(n), xs);
            assert(partly_grouped(m.logs, 0, 0) =~= empty_logs(n));
        } else {
            let pl = m.logs[j - 1].len() as int;
            lemma_grouped_prefix(m, j - 1, pl);
            lemma_flatten_step(m.logs, j - 1);
            assert(m.logs[j - 1].take(pl) =~= m.logs[j - 1]);
            assert(m.logs[j].take(0) =~= Seq::<MessageView>::empty());
            assert(xs =~= flatten(m.logs.take(j - 1)) + m.logs[j - 1].take(pl));
            assert(partly_grouped(m.logs, j - 1, pl) =~= partly_grouped(m.logs, j, 0));
        }
    } else {
        lemma_grouped_prefix(m, j, i - 1);
        lemma_grouped_push(m, j, i);
    }
}

#[verifier::rlimit(60)]
proof fn lemma_grouped_push(m: LogModel, j: int, i: int)
    requires
        MessageLog::model_wf(m),
        0 <= j < m.logs.len(),
        0 < i <= m.logs[j].len(),
        rows_fit(m.logs.len(), flatten(m.logs.take(j)) + m.logs[j].take(i - 1)),
        group_rows(empty_logs(m.logs.len()), flatten(m.logs.take(j)) + m.logs[j].take(i - 1))
            == partly_grouped(m.logs, j, i - 1),
    ensures
        rows_fit(m.logs.len(), flatten(m.logs.take(j)) + m.logs[j].take(i)),
        group_rows(empty_logs(m.logs.len()), flatten(m.logs.take(j)) + m.logs[j].take(i))
            == partly_grouped(m.logs, j, i),
{
    let n = m.logs.len();
    let xs = flatten(m.logs.take(j)) + m.logs[j].take(i);
    let prev = flatten(m.logs.take(j)) + m.logs[j].take(i - 1);
    let row = m.logs[j][i - 1];
    let p = prev.len() as int;
    assert(xs =~= prev.push(row));
    assert(xs.take(p) =~= prev);
    assert(xs.take(p + 1) =~= xs);
    assert(xs[p] == row);
    assert(row.topic_id == j + 1);
    assert(row.sequence == i);
    lemma_group_rows_step(empty_logs(n), xs, p);
    assert(m.logs[j].take(i) =~= m.logs[j].take(i - 1).push(row));
    assert(group_rows(empty_logs(n), xs) =~= partly_grouped(m.logs, j, i));
    lemma_rows_fit_extend(n, xs, p);
}

/// Restoring what a log persists gives the same log back: every committed
/// message comes back with the same id, sequence and timestamp, and every
/// topic with the same id, name and creation time.
pub proof fn lemma_restore_round_trip(m: LogModel)
    requires
        MessageLog::model_wf(m),
    ensures
        topics_fit(m.topics),
        rows_fit(m.logs.len(), flatten(m.logs)),
        group_rows(empty_logs(m.logs.len()), flatten(m.logs)) == m.logs,
{
    let n = m.logs.len();
    if n == 0 {
        reveal(rows_fit);
        assert(flatten(m.logs) =~= Seq::<MessageView>::empty());
        lemma_group_rows_empty(empty_logs(0), flatten(m.logs));
        assert(empty_logs(0) =~= m.logs);
    } else {
        let last = m.logs[n - 1].len() as int;
        lemma_grouped_prefix(m, n - 1, last);
        lemma_flatten_step(m.logs, n - 1);
        assert(m.logs.take(n as int) =~= m.logs);
        assert(m.logs[n - 1].take(last) =~= m.logs[n - 1]);
        assert(partly_grouped(m.logs, n - 1, last) =~= m.logs);
    }
}

} // verus!
