use vstd::prelude::*;

use tokio::sync::oneshot::{Receiver, Sender};

verus! {

#[verifier::external_type_specification]
#[verifier::external_body]
#[verifier::reject_recursive_types(T)]
pub struct ExOneshotSender<T>(Sender<T>);

#[verifier::external_type_specification]
#[verifier::external_body]
#[verifier::reject_recursive_types(T)]
pub struct ExOneshotReceiver<T>(Receiver<T>);

#[verifier::external_type_specification]
#[verifier::external_body]
pub struct ExOneshotRecvError(tokio::sync::oneshot::error::RecvError);

/// A fresh cancellation signal: the sender fires it, the receiver waits for
/// it.
///
/// Relies on `tokio::sync::oneshot::channel`, which returns a connected pair.
#[verifier::external_body]
fn cancel_channel() -> (Sender<()>, Receiver<()>) {
    tokio::sync::oneshot::channel()
}

/// Fires a cancellation signal.
///
/// Relies on `tokio::sync::oneshot::Sender::send`, which hands the value to
/// the receiver, or gives it back when the receiver is gone; either way is
/// fine here.
#[verifier::external_body]
fn fire(tx: Sender<()>) {
    let _ = tx.send(());
}

/// Identifies the holder of a consumer group on a topic.
#[derive(Clone, Debug, Hash, Eq, PartialEq)]
pub struct ConsumerGroupKey {
    pub topic_id: i64,
    pub consumer_group: String,
}

impl View for ConsumerGroupKey {
    type V = (i64, Seq<char>);

    open spec fn view(&self) -> (i64, Seq<char>) {
        (self.topic_id, self.consumer_group@)
    }
}

/// A live registration: its token, and the signal that fires when a newer
/// subscription takes the group over.
#[derive(Debug)]
pub struct Registration {
    pub token: u64,
    pub cancelled: Receiver<()>,
    /// The token of the registration this one displaced, if any.
    pub displaced: Option<u64>,
}

struct RegistryEntry {
    key: ConsumerGroupKey,
    token: u64,
    cancel: Sender<()>,
}

/// The effect of unregistering `token` under `key`: the entry goes only if it
/// is still that registration's.
pub open spec fn after_unregister(m: Map<(i64, Seq<char>), u64>, key: (i64, Seq<char>), token: u64) -> Map<
    (i64, Seq<char>),
    u64,
> {
    if m.contains_key(key) && m[key] == token {
        m.remove(key)
    } else {
        m
    }
}

pub open spec fn entry_index(keys: Seq<(i64, Seq<char>)>, key: (i64, Seq<char>)) -> Option<int> {
    if exists|i: int| 0 <= i < keys.len() && #[trigger] keys[i] == key {
        Some(choose|i: int| 0 <= i < keys.len() && #[trigger] keys[i] == key)
    } else {
        None
    }
}

/// The active subscriptions: at most one per `(topic, group)`.
///
/// Each registration gets a token larger than any before it, so an old
/// holder can never unregister its successor.
pub struct ConnectionRegistry {
    active: Vec<RegistryEntry>,
    next_token: u64,
    /// The registrations whose cancellation signal has been fired.
    fired: Ghost<Set<u64>>,
}

impl ConnectionRegistry {
    closed spec fn keys(&self) -> Seq<(i64, Seq<char>)> {
        self.active@.map_values(|e: RegistryEntry| e.key@)
    }

    /// The token of the live registration of each key.
    pub closed spec fn spec_map(&self) -> Map<(i64, Seq<char>), u64> {
        Map::new(
            |k: (i64, Seq<char>)| entry_index(self.keys(), k) is Some,
            |k: (i64, Seq<char>)| self.active@[entry_index(self.keys(), k).unwrap()].token,
        )
    }

    /// The number of live registrations.
    pub closed spec fn spec_count(&self) -> nat {
        self.active@.len()
    }

    /// The token the next registration will get.
    pub closed spec fn spec_next_token(&self) -> u64 {
        self.next_token
    }

    /// The tokens of the registrations that were told to stop.
    pub closed spec fn spec_fired(&self) -> Set<u64> {
        self.fired@
    }

    pub closed spec fn wf(&self) -> bool {
        &&& forall|i: int| 0 <= i < self.active@.len() ==> !self.fired@.contains(
            #[trigger] self.active@[i].token,
        )
        &&& forall|t: u64| #[trigger] self.fired@.contains(t) ==> t < self.next_token
        &&& forall|i: int, j: int|
            0 <= i < self.active@.len() && 0 <= j < self.active@.len() && i != j ==> (
            #[trigger] self.active@[i]).token != (#[trigger] self.active@[j]).token
        &&& forall|i: int, j: int|
            0 <= i < self.active@.len() && 0 <= j < self.active@.len() && i != j ==> (
            #[trigger] self.active@[i]).key@ != (#[trigger] self.active@[j]).key@
        &&& forall|i: int|
            0 <= i < self.active@.len() ==> (#[trigger] self.active@[i]).token < self.next_token
    }

    /// An empty registry.
    pub fn new() -> (r: Self)
        ensures
            r.wf(),
            r.spec_map() == Map::<(i64, Seq<char>), u64>::empty(),
            r.spec_count() == 0,
            r.spec_next_token() == 0,
            r.spec_fired() == Set::<u64>::empty(),
    {
        let r = ConnectionRegistry { active: Vec::new(), next_token: 0, fired: Ghost(Set::empty()) };
        assert(r.spec_map() =~= Map::<(i64, Seq<char>), u64>::empty());
        r
    }

    fn find(&self, key: &ConsumerGroupKey) -> (r: Option<usize>)
        requires
            self.wf(),
        ensures
            r == (match entry_index(self.keys(), key@) {
                Some(i) => Some(i as usize),
                None => None::<usize>,
            }),
            r matches Some(i) ==> i < self.active@.len() && self.active@[i as int].key@ == key@,
            r is None ==> forall|i: int|
                0 <= i < self.active@.len() ==> (#[trigger] self.active@[i]).key@ != key@,
    {
        let mut i: usize = 0;
        while i < self.active.len()
            invariant
                self.wf(),
                i <= self.active@.len(),
                forall|j: int| 0 <= j < i ==> (#[trigger] self.active@[j]).key@ != key@,
            decreases self.active@.len() - i,
        {
            let e = &self.active[i];
            if e.key.topic_id == key.topic_id && e.key.consumer_group == key.consumer_group {
                assert(self.keys()[i as int] == key@);
                let ghost c = choose|c: int|
                    0 <= c < self.keys().len() && #[trigger] self.keys()[c] == key@;
                assert(self.active@[c].key@ == key@);
                assert(c == i);
                return Some(i);
            }
            i = i + 1;
        }
        proof {
            assert forall|c: int| 0 <= c < self.keys().len() implies #[trigger] self.keys()[c]
                != key@ by {
                assert(self.keys()[c] == self.active@[c].key@);
            }
        }
        None
    }

    /// Makes a new subscription the holder of `key`. A previous holder is
    /// signalled to stop and loses the key; the new one gets a fresh token
    /// and a signal of its own.
    pub fn register(&mut self, key: ConsumerGroupKey) -> (r: Registration)
        requires
            old(self).wf(),
            old(self).spec_next_token() < u64::MAX,
        ensures
            final(self).wf(),
            r.token == old(self).spec_next_token(),
            final(self).spec_next_token() == old(self).spec_next_token() + 1,
            final(self).spec_map() == old(self).spec_map().insert(key@, r.token),
            r.displaced == (if old(self).spec_map().contains_key(key@) {
                Some(old(self).spec_map()[key@])
            } else {
                None::<u64>
            }),
            final(self).spec_count() == old(self).spec_count() + (if r.displaced is Some {
                0int
            } else {
                1int
            }),
            final(self).spec_fired() == (match r.displaced {
                Some(t) => old(self).spec_fired().insert(t),
                None => old(self).spec_fired(),
            }),
            !final(self).spec_fired().contains(r.token),
    {
        let ghost old_map = self.spec_map();
        let ghost kv = key@;
        let token = self.next_token;
        let (tx, rx) = cancel_channel();
        let found = self.find(&key);
        let entry = RegistryEntry { key, token, cancel: tx };
        let ghost before = self.active@;
        let displaced = match found {
            Some(i) => {
                let prior = self.active.remove(i);
                let prior_token = prior.token;
                fire(prior.cancel);
                proof {
                    self.fired@ = self.fired@.insert(prior_token);
                }
                self.active.insert(i, entry);
                Some(prior_token)
            },
            None => {
                self.active.push(entry);
                None
            },
        };
        self.next_token = token + 1;
        proof {
            let after = self.active@;
            assert forall|q: int| 0 <= q < after.len() implies !self.fired@.contains(
                #[trigger] after[q].token,
            ) && after[q].token < self.next_token by {
                match found {
                    Some(i) => {
                        if q != i {
                            assert(after[q] == before[q]);
                            assert(before[q].token != before[i as int].token);
                        }
                    },
                    None => {
                        if q < before.len() {
                            assert(after[q] == before[q]);
                        }
                    },
                }
            }
            assert forall|a: int, b: int|
                0 <= a < after.len() && 0 <= b < after.len() && a != b implies (
                #[trigger] after[a]).token != (#[trigger] after[b]).token by {
                match found {
                    Some(i) => {
                        if a != i {
                            assert(after[a] == before[a]);
                        }
                        if b != i {
                            assert(after[b] == before[b]);
                        }
                    },
                    None => {
                        if a < before.len() {
                            assert(after[a] == before[a]);
                        }
                        if b < before.len() {
                            assert(after[b] == before[b]);
                        }
                    },
                }
            }
            assert(self.keys() == after.map_values(|e: RegistryEntry| e.key@));
            match found {
                Some(i) => {
                    assert(after == before.update(i as int, after[i as int]));
                    assert forall|tk: (i64, Seq<char>)| tk != kv implies #[trigger] entry_index(
                        self.keys(),
                        tk,
                    ) == entry_index(before.map_values(|e: RegistryEntry| e.key@), tk) by {
                        let ob = before.map_values(|e: RegistryEntry| e.key@);
                        assert forall|q: int| 0 <= q < after.len() implies (#[trigger] self.keys()[q]
                            == tk) == (ob[q] == tk) by {
                            if q != i {
                                assert(after[q] == before[q]);
                            }
                        }
                        if exists|q: int| 0 <= q < ob.len() && #[trigger] ob[q] == tk {
                            let q = choose|q: int| 0 <= q < ob.len() && #[trigger] ob[q] == tk;
                            assert(self.keys()[q] == tk);
                        }
                        if exists|q: int| 0 <= q < after.len() && #[trigger] self.keys()[q] == tk {
                            let q = choose|q: int|
                                0 <= q < after.len() && #[trigger] self.keys()[q] == tk;
                            assert(ob[q] == tk);
                        }
                    }
                    assert(self.keys()[i as int] == kv);
                    let c = choose|c: int| 0 <= c < self.keys().len() && #[trigger] self.keys()[c] == kv;
                    assert(self.active@[c].key@ == kv);
                    assert(c == i);
                    assert(before.map_values(|e: RegistryEntry| e.key@)[i as int] == kv);
                    assert(self.spec_map() =~= old_map.insert(kv, token));
                },
                None => {
                    let n = before.len() as int;
                    assert(after == before.push(after[n]));
                    assert forall|tk: (i64, Seq<char>)| tk != kv implies #[trigger] entry_index(
                        self.keys(),
                        tk,
                    ) == entry_index(before.map_values(|e: RegistryEntry| e.key@), tk) by {
                        let ob = before.map_values(|e: RegistryEntry| e.key@);
                        if exists|q: int| 0 <= q < ob.len() && #[trigger] ob[q] == tk {
                            let q = choose|q: int| 0 <= q < ob.len() && #[trigger] ob[q] == tk;
                            assert(self.keys()[q] == tk);
                        }
                        if exists|q: int| 0 <= q < after.len() && #[trigger] self.keys()[q] == tk {
                            let q = choose|q: int|
                                0 <= q < after.len() && #[trigger] self.keys()[q] == tk;
                            assert(q < n);
                            assert(ob[q] == tk);
                        }
                    }
                    assert(self.keys()[n] == kv);
                    let c = choose|c: int| 0 <= c < self.keys().len() && #[trigger] self.keys()[c] == kv;
                    assert(self.active@[c].key@ == kv);
                    assert(c == n);
                    assert(!old_map.contains_key(kv));
                    assert(self.spec_map() =~= old_map.insert(kv, token));
                },
            }
        }
        Registration { token, cancelled: rx, displaced }
    }

    /// Ends the registration `token` of `key`, if it is still the holder.
    /// Returns whether it was.
    pub fn unregister(&mut self, key: &ConsumerGroupKey, token: u64) -> (r: bool)
        requires
            old(self).wf(),
        ensures
            final(self).wf(),
            r == (old(self).spec_map().contains_key(key@) && old(self).spec_map()[key@] == token),
            final(self).spec_map() == after_unregister(old(self).spec_map(), key@, token),
            final(self).spec_next_token() == old(self).spec_next_token(),
            final(self).spec_fired() == old(self).spec_fired(),
            final(self).spec_count() == old(self).spec_count() - (if r {
                1int
            } else {
                0int
            }),
    {
        let ghost old_map = self.spec_map();
        let ghost kv = key@;
        match self.find(key) {
            Some(i) => {
                if self.active[i].token != token {
                    return false;
                }
                let ghost before = self.active@;
                let removed = self.active.remove(i);
                proof {
                    let after = self.active@;
                    let ob = before.map_values(|e: RegistryEntry| e.key@);
                    assert(after == before.remove(i as int));
                    assert forall|tk: (i64, Seq<char>)| tk != kv implies #[trigger] entry_index(
                        self.keys(),
                        tk,
                    ) matches Some(q) && entry_index(ob, tk) matches Some(q0) && self.active@[q].token
                        == before[q0].token || (entry_index(self.keys(), tk) is None && entry_index(
                        ob,
                        tk,
                    ) is None) by {
                        if exists|q: int| 0 <= q < ob.len() && #[trigger] ob[q] == tk {
                            let q0 = choose|q: int| 0 <= q < ob.len() && #[trigger] ob[q] == tk;
                            let q = if q0 < i {
                                q0
                            } else {
                                q0 - 1
                            };
                            assert(q0 != i);
                            assert(self.keys()[q] == tk);
                            let q1 = choose|q: int|
                                0 <= q < self.keys().len() && #[trigger] self.keys()[q] == tk;
                            let q2 = if q1 < i {
                                q1
                            } else {
                                q1 + 1
                            };
                            assert(ob[q2] == tk);
                            assert(q2 == q0);
                        } else {
                            if exists|q: int| 0 <= q < after.len() && #[trigger] self.keys()[q] == tk {
                                let q = choose|q: int|
                                    0 <= q < after.len() && #[trigger] self.keys()[q] == tk;
                                let q2 = if q < i {
                                    q
                                } else {
                                    q + 1
                                };
                                assert(ob[q2] == tk);
                            }
                        }
                    }
                    assert forall|q: int| 0 <= q < after.len() implies #[trigger] self.keys()[q]
                        != kv by {
                        let q2 = if q < i {
                            q
                        } else {
                            q + 1
                        };
                        assert(ob[q2] == before[q2].key@);
                        assert(q2 != i);
                    }
                    assert(ob[i as int] == kv);
                    assert(self.spec_map() =~= old_map.remove(kv));
                }
                true
            },
            None => false,
        }
    }

    /// The number of live registrations.
    pub fn active_count(&self) -> (r: usize)
        ensures
            r == self.spec_count(),
    {
        self.active.len()
    }
}

/// A key's live holder has never been told to stop.
pub proof fn lemma_live_holder_not_signalled(r: &ConnectionRegistry, key: (i64, Seq<char>))
    requires
        r.wf(),
        r.spec_map().contains_key(key),
    ensures
        !r.spec_fired().contains(r.spec_map()[key]),
{
    let i = entry_index(r.keys(), key).unwrap();
    assert(0 <= i < r.keys().len());
    assert(r.spec_map()[key] == r.active@[i].token);
}

/// Takeover leaves one live holder: after a new subscription registers a key
/// that was held, the displaced holder has been signalled to stop, the
/// newcomer holds the key and has not been signalled, and the displaced
/// holder cannot remove the newcomer by unregistering.
pub proof fn lemma_takeover_keeps_newest(
    before: &ConnectionRegistry,
    after: &ConnectionRegistry,
    key: (i64, Seq<char>),
    newest: u64,
)
    requires
        before.wf(),
        after.wf(),
        before.spec_map().contains_key(key),
        newest == before.spec_next_token(),
        after.spec_map() == before.spec_map().insert(key, newest),
        after.spec_fired() == before.spec_fired().insert(before.spec_map()[key]),
    ensures
        after.spec_fired().contains(before.spec_map()[key]),
        after.spec_map()[key] == newest,
        !after.spec_fired().contains(newest),
        after_unregister(after.spec_map(), key, before.spec_map()[key]) == after.spec_map(),
{
    lemma_live_holder_not_signalled(after, key);
    let i = entry_index(before.keys(), key).unwrap();
    assert(0 <= i < before.keys().len());
    assert(before.spec_map()[key] == before.active@[i].token);
    assert(before.spec_map()[key] < newest);
}

} // verus!
