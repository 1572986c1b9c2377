use vstd::prelude::*;

verus! {

/// The durable high-water mark of acknowledged sequences of one consumer
/// group on one topic.
#[derive(Debug, Clone)]
pub struct CursorRecord {
    pub topic_id: i64,
    pub consumer_group: String,
    pub last_seq: i64,
}

/// The position of the cursor of `(topic_id, group)` in `entries`, if any.
pub open spec fn cursor_index(entries: Seq<CursorRecord>, topic_id: i64, group: Seq<char>) -> Option<
    int,
> {
    if exists|i: int|
        0 <= i < entries.len() && #[trigger] entries[i].topic_id == topic_id
            && entries[i].consumer_group@ == group {
        Some(
            choose|i: int|
                0 <= i < entries.len() && #[trigger] entries[i].topic_id == topic_id
                    && entries[i].consumer_group@ == group,
        )
    } else {
        None
    }
}

/// The cursors of all consumer groups, at most one per `(topic, group)`.
pub struct CursorStore {
    entries: Vec<CursorRecord>,
}

impl CursorStore {
    /// The stored cursors as a map from `(topic id, group)` to the last
    /// acknowledged sequence.
    pub closed spec fn spec_map(&self) -> Map<(i64, Seq<char>), i64> {
        Map::new(
            |key: (i64, Seq<char>)| cursor_index(self.entries@, key.0, key.1).is_some(),
            |key: (i64, Seq<char>)|
                self.entries@[cursor_index(self.entries@, key.0, key.1).unwrap()].last_seq,
        )
    }

    /// No two entries share a key.
    pub closed spec fn wf(&self) -> bool {
        forall|i: int, j: int|
            0 <= i < self.entries@.len() && 0 <= j < self.entries@.len() && i != j
                ==> !(#[trigger] self.entries@[i].topic_id == #[trigger] self.entries@[j].topic_id
                && self.entries@[i].consumer_group@ == self.entries@[j].consumer_group@)
    }

    /// A store with no cursor.
    pub fn new() -> (r: Self)
        ensures
            r.wf(),
            r.spec_map() == Map::<(i64, Seq<char>), i64>::empty(),
    {
        let r = CursorStore { entries: Vec::new() };
        assert(r.spec_map() =~= Map::<(i64, Seq<char>), i64>::empty());
        r
    }

    fn find(&self, topic_id: i64, group: &String) -> (r: Option<usize>)
        requires
            self.wf(),
        ensures
            r == (match cursor_index(self.entries@, topic_id, group@) {
                Some(i) => Some(i as usize),
                None => None::<usize>,
            }),
            r matches Some(i) ==> i < self.entries@.len() && self.entries@[i as int].topic_id
                == topic_id && self.entries@[i as int].consumer_group@ == group@,
    {
        let mut i: usize = 0;
        while i < self.entries.len()
            invariant
                self.wf(),
                i <= self.entries@.len(),
                forall|j: int|
                    0 <= j < i ==> !(#[trigger] self.entries@[j].topic_id == topic_id
                        && self.entries@[j].consumer_group@ == group@),
            decreases self.entries@.len() - i,
        {
            if self.entries[i].topic_id == topic_id && self.entries[i].consumer_group == *group {
                let ghost c = choose|c: int|
                    0 <= c < self.entries@.len() && #[trigger] self.entries@[c].topic_id == topic_id
                        && self.entries@[c].consumer_group@ == group@;
                assert(c == i);
                return Some(i);
            }
            i = i + 1;
        }
        None
    }

    /// The last acknowledged sequence of `group` on the topic, if it has a
    /// cursor.
    pub fn load(&self, topic_id: i64, group: &String) -> (r: Option<i64>)
        requires
            self.wf(),
        ensures
            r == (if self.spec_map().contains_key((topic_id, group@)) {
                Some(self.spec_map()[(topic_id, group@)])
            } else {
                None
            }),
    {
        match self.find(topic_id, group) {
            Some(i) => Some(self.entries[i].last_seq),
            None => None,
        }
    }

    /// Moves the cursor of `group` on the topic up to `seq`, creating it if
    /// there is none; a cursor never moves back.
    pub fn advance(&mut self, topic_id: i64, group: String, seq: i64)
        requires
            old(self).wf(),
        ensures
            final(self).wf(),
            final(self).spec_map() == old(self).spec_map().insert(
                (topic_id, group@),
                if old(self).spec_map().contains_key((topic_id, group@)) && old(self).spec_map()[(
                topic_id,
                group@,
                )] > seq {
                    old(self).spec_map()[(topic_id, group@)]
                } else {
                    seq
                },
            ),
    {
        let ghost old_map = self.spec_map();
        let ghost key = (topic_id, group@);
        match self.find(topic_id, &group) {
            Some(i) => {
                let cur = self.entries[i].last_seq;
                let next = if cur > seq {
                    cur
                } else {
                    seq
                };
                let ghost before = self.entries@;
                let rec = CursorRecord { topic_id, consumer_group: group, last_seq: next };
                self.entries.set(i, rec);
                proof {
                    let after = self.entries@;
                    assert forall|j: int| 0 <= j < after.len() implies (#[trigger] after[j].topic_id
                        == before[j].topic_id && after[j].consumer_group@
                        == before[j].consumer_group@) by {}
                    assert forall|tk: (i64, Seq<char>)| #[trigger]
                        cursor_index(after, tk.0, tk.1) == cursor_index(before, tk.0, tk.1) by {
                        if exists|q: int|
                            0 <= q < after.len() && #[trigger] after[q].topic_id == tk.0
                                && after[q].consumer_group@ == tk.1 {
                            let q = choose|q: int|
                                0 <= q < after.len() && #[trigger] after[q].topic_id == tk.0
                                    && after[q].consumer_group@ == tk.1;
                            assert(before[q].topic_id == tk.0);
                        }
                        if exists|q: int|
                            0 <= q < before.len() && #[trigger] before[q].topic_id == tk.0
                                && before[q].consumer_group@ == tk.1 {
                            let q = choose|q: int|
                                0 <= q < before.len() && #[trigger] before[q].topic_id == tk.0
                                    && before[q].consumer_group@ == tk.1;
                            assert(after[q].topic_id == tk.0);
                        }
                    }
                    assert(self.wf());
                    assert forall|tk: (i64, Seq<char>)| tk != key && #[trigger] cursor_index(
                        after,
                        tk.0,
                        tk.1,
                    ) is Some implies cursor_index(after, tk.0, tk.1).unwrap() != i as int by {}
                    assert(self.spec_map() =~= old_map.insert(key, next));
                }
            },
            None => {
                let ghost before = self.entries@;
                let rec = CursorRecord { topic_id, consumer_group: group, last_seq: seq };
                self.entries.push(rec);
                proof {
                    let after = self.entries@;
                    let n = before.len() as int;
                    assert(after[n].topic_id == topic_id && after[n].consumer_group@ == key.1);
                    assert forall|tk: (i64, Seq<char>)| tk != key implies #[trigger] cursor_index(
                        after,
                        tk.0,
                        tk.1,
                    ) == cursor_index(before, tk.0, tk.1) by {
                        if exists|q: int|
                            0 <= q < after.len() && #[trigger] after[q].topic_id == tk.0
                                && after[q].consumer_group@ == tk.1 {
                            let q = choose|q: int|
                                0 <= q < after.len() && #[trigger] after[q].topic_id == tk.0
                                    && after[q].consumer_group@ == tk.1;
                            assert(q < n);
                            assert(before[q].topic_id == tk.0);
                        }
                        if exists|q: int|
                            0 <= q < before.len() && #[trigger] before[q].topic_id == tk.0
                                && before[q].consumer_group@ == tk.1 {
                            let q = choose|q: int|
                                0 <= q < before.len() && #[trigger] before[q].topic_id == tk.0
                                    && before[q].consumer_group@ == tk.1;
                            assert(after[q].topic_id == tk.0);
                        }
                    }
                    let c = choose|c: int|
                        0 <= c < after.len() && #[trigger] after[c].topic_id == topic_id
                            && after[c].consumer_group@ == key.1;
                    assert(c == n);
                    assert(self.wf());
                    assert(self.spec_map() =~= old_map.insert(key, seq));
                }
            },
        }
    }
}

} // verus!
