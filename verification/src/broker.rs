use vstd::prelude::*;

use crate::errors::ActorError;
use crate::messages::{BrokerMessage, BrokerMessageView, ClientMessage, ClientMessageView};
use crate::registry::Registry;

verus! {

/// One live subscription: a (topic, subscriber-name) pair.
pub struct Subscription {
    pub topic: String,
    pub subscriber: String,
}

/// Whether the pair `(t, s)` occurs anywhere in `q`.
spec fn has_pair(q: Seq<Subscription>, t: Seq<char>, s: Seq<char>) -> bool {
    exists|k: int| 0 <= k < q.len() && q[k].topic@ == t && q[k].subscriber@ == s
}

/// Whether the pair `(t, s)` occurs among the first `i` elements of `q`.
spec fn has_pair_upto(q: Seq<Subscription>, t: Seq<char>, s: Seq<char>, i: int) -> bool {
    exists|k: int| 0 <= k < i && k < q.len() && q[k].topic@ == t && q[k].subscriber@ == s
}

/// Each (topic, subscriber) pair occurs at most once.
spec fn unique_pairs(q: Seq<Subscription>) -> bool {
    forall|k1: int, k2: int|
        0 <= k1 < k2 < q.len() ==> !(q[k1].topic@ == q[k2].topic@ && q[k1].subscriber@ == q[
            k2
        ].subscriber@)
}

/// Appending a pair that is not yet present keeps the pairs unique and adds
/// exactly that pair to the contents.
proof fn lemma_push_pair(q: Seq<Subscription>, e: Subscription)
    requires
        unique_pairs(q),
        !has_pair(q, e.topic@, e.subscriber@),
    ensures
        unique_pairs(q.push(e)),
        forall|t: Seq<char>, s: Seq<char>|
            has_pair(q.push(e), t, s) <==> (has_pair(q, t, s) || (t == e.topic@ && s
                == e.subscriber@)),
{
    let q1 = q.push(e);
    assert forall|k1: int, k2: int| 0 <= k1 < k2 < q1.len() implies !(q1[k1].topic@ == q1[
        k2
    ].topic@ && q1[k1].subscriber@ == q1[k2].subscriber@) by {
        if k2 == q.len() {
            assert(q1[k1] == q[k1]);
            assert(q1[k2] == e);
            assert(!has_pair(q, e.topic@, e.subscriber@));
            if q1[k1].topic@ == e.topic@ && q1[k1].subscriber@ == e.subscriber@ {
                assert(has_pair(q, e.topic@, e.subscriber@));
            }
        } else {
            assert(q1[k1] == q[k1] && q1[k2] == q[k2]);
        }
    }
    assert forall|t: Seq<char>, s: Seq<char>| has_pair(q1, t, s) <==> (has_pair(q, t, s) || (t
        == e.topic@ && s == e.subscriber@)) by {
        if has_pair(q1, t, s) {
            let k = choose|k: int| 0 <= k < q1.len() && q1[k].topic@ == t && q1[k].subscriber@ == s;
            if k < q.len() {
                assert(q1[k] == q[k]);
                assert(has_pair(q, t, s));
            } else {
                assert(q1[k] == e);
            }
        }
        if has_pair(q, t, s) {
            let k = choose|k: int| 0 <= k < q.len() && q[k].topic@ == t && q[k].subscriber@ == s;
            assert(q1[k] == q[k]);
            assert(has_pair(q1, t, s));
        }
        if t == e.topic@ && s == e.subscriber@ {
            assert(q1[q.len() as int] == e);
            assert(has_pair(q1, t, s));
        }
    }
}

/// Removing the element at `k` keeps the pairs unique and deletes exactly
/// that pair from the contents.
proof fn lemma_remove_pair(q: Seq<Subscription>, k: int)
    requires
        unique_pairs(q),
        0 <= k < q.len(),
    ensures
        unique_pairs(q.remove(k)),
        forall|t: Seq<char>, s: Seq<char>|
            has_pair(q.remove(k), t, s) <==> (has_pair(q, t, s) && !(t == q[k].topic@ && s == q[
                k
            ].subscriber@)),
{
    let q1 = q.remove(k);
    assert forall|j1: int, j2: int| 0 <= j1 < j2 < q1.len() implies !(q1[j1].topic@ == q1[
        j2
    ].topic@ && q1[j1].subscriber@ == q1[j2].subscriber@) by {
        let o1: int = if j1 < k {
            j1
        } else {
            j1 + 1
        };
        let o2: int = if j2 < k {
            j2
        } else {
            j2 + 1
        };
        assert(q1[j1] == q[o1] && q1[j2] == q[o2]);
    }
    assert forall|t: Seq<char>, s: Seq<char>| has_pair(q1, t, s) <==> (has_pair(q, t, s) && !(t
        == q[k].topic@ && s == q[k].subscriber@)) by {
        if has_pair(q1, t, s) {
            let j = choose|j: int| 0 <= j < q1.len() && q1[j].topic@ == t && q1[j].subscriber@ == s;
            let o: int = if j < k {
                j
            } else {
                j + 1
            };
            assert(q1[j] == q[o]);
            assert(has_pair(q, t, s));
            if t == q[k].topic@ && s == q[k].subscriber@ {
                assert(!(q[o].topic@ == q[k].topic@ && q[o].subscriber@ == q[k].subscriber@));
            }
        }
        if has_pair(q, t, s) && !(t == q[k].topic@ && s == q[k].subscriber@) {
            let o = choose|o: int| 0 <= o < q.len() && q[o].topic@ == t && q[o].subscriber@ == s;
            let j: int = if o < k {
                o
            } else {
                o - 1
            };
            assert(q1[j] == q[o]);
            assert(has_pair(q1, t, s));
        }
    }
}

/// Each kept pair has a source among the first `i` entries of `q`.
spec fn sourced(q: Seq<Subscription>, kept: Seq<Subscription>, i: int) -> bool {
    forall|k: int|
        #![trigger kept[k]]
        0 <= k < kept.len() ==> exists|o: int|
            0 <= o < i && q[o].topic@ == kept[k].topic@ && q[o].subscriber@ == kept[k].subscriber@
}

/// One message the broker asks the runtime to deliver while dispatching a
/// `Publish`: a `Notification` for the mailbox behind `handle`.
pub struct Delivery {
    /// The subscriber name the notification is owed to.
    pub subscriber: String,
    /// The handle that name resolved to at dispatch time.
    pub handle: u64,
    /// The notification carrying the published topic and payload.
    pub message: ClientMessage,
}

/// The broker actor: it owns the `topic -> set of subscriber names` table and
/// turns each accepted `BrokerMessage` into a state change plus a batch of
/// notifications to deliver.
///
/// Subscriber names need not belong to live actors: dispatch tolerates
/// dangling names by pruning them lazily.
pub struct Broker {
    subscriptions: Vec<Subscription>,
}

impl Broker {
    /// Whether `s` is currently subscribed to `t`.
    pub closed spec fn spec_subscribed(&self, t: Seq<char>, s: Seq<char>) -> bool {
        has_pair(self.subscriptions@, t, s)
    }

    /// The subscriber set of topic `t`.
    pub open spec fn subscribers_of(&self, t: Seq<char>) -> Set<Seq<char>> {
        Set::new(|s: Seq<char>| self.spec_subscribed(t, s))
    }

    /// Each (topic, subscriber) pair appears at most once.
    pub closed spec fn wf(&self) -> bool {
        unique_pairs(self.subscriptions@)
    }

    /// The broker's `init`: it accepts any startup argument, so it always
    /// succeeds, and it starts with no subscriptions.
    pub fn init() -> (r: Result<Broker, ActorError>)
        ensures
            r is Ok,
            r matches Ok(b) ==> b.wf() && forall|t: Seq<char>, s: Seq<char>|
                !b.spec_subscribed(t, s),
    {
        Ok(Broker { subscriptions: Vec::new() })
    }

    /// Whether `subscriber` is currently in the subscriber set of `topic`.
    pub fn is_subscribed(&self, topic: &String, subscriber: &String) -> (b: bool)
        requires
            self.wf(),
        ensures
            b == self.spec_subscribed(topic@, subscriber@),
    {
        let n = self.subscriptions.len();
        let mut i: usize = 0;
        while i < n
            invariant
                n == self.subscriptions@.len(),
                i <= n,
                forall|k: int|
                    0 <= k < i ==> !(self.subscriptions@[k].topic@ == topic@
                        && self.subscriptions@[k].subscriber@ == subscriber@),
            decreases n - i,
        {
            if self.subscriptions[i].topic == *topic && self.subscriptions[i].subscriber
                == *subscriber {
                return true;
            }
            i = i + 1;
        }
        false
    }

    /// Inserts `subscriber` into the subscriber set of `topic`. Idempotent:
    /// re-subscribing changes nothing and still succeeds. The broker does not
    /// check that the name is registered.
    pub fn subscribe(&mut self, topic: String, subscriber: String)
        requires
            old(self).wf(),
        ensures
            final(self).wf(),
            final(self).spec_subscribed(topic@, subscriber@),
            forall|s: Seq<char>|
                final(self).spec_subscribed(topic@, s) <==> (old(self).spec_subscribed(topic@, s)
                    || s == subscriber@),
            forall|t: Seq<char>, s: Seq<char>|
                t != topic@ ==> (final(self).spec_subscribed(t, s) <==> old(self).spec_subscribed(
                    t,
                    s,
                )),
            final(self).subscribers_of(topic@) =~= old(self).subscribers_of(topic@).insert(
                subscriber@,
            ),
    {
        if self.is_subscribed(&topic, &subscriber) {
            proof {
                assert(self.subscribers_of(topic@) =~= old(self).subscribers_of(topic@).insert(
                    subscriber@,
                ));
            }
            return ;
        }
        let ghost prev = self.subscriptions@;
        let e = Subscription { topic, subscriber };
        proof {
            lemma_push_pair(prev, e);
        }
        self.subscriptions.push(e);
        proof {
            assert(self.subscribers_of(e.topic@) =~= old(self).subscribers_of(e.topic@).insert(
                e.subscriber@,
            ));
        }
    }

    /// Removes `subscriber` from the subscriber set of `topic`; no error if
    /// it was absent.
    pub fn unsubscribe(&mut self, topic: &String, subscriber: &String)
        requires
            old(self).wf(),
        ensures
            final(self).wf(),
            forall|t: Seq<char>, s: Seq<char>|
                final(self).spec_subscribed(t, s) <==> (old(self).spec_subscribed(t, s) && !(t
                    == topic@ && s == subscriber@)),
            final(self).subscribers_of(topic@) =~= old(self).subscribers_of(topic@).remove(
                subscriber@,
            ),
    {
        let n = self.subscriptions.len();
        let mut i: usize = 0;
        while i < n
            invariant
                *self == *old(self),
                self.wf(),
                n == self.subscriptions@.len(),
                i <= n,
                forall|k: int|
                    0 <= k < i ==> !(self.subscriptions@[k].topic@ == topic@
                        && self.subscriptions@[k].subscriber@ == subscriber@),
            decreases n - i,
        {
            if self.subscriptions[i].topic == *topic && self.subscriptions[i].subscriber
                == *subscriber {
                proof {
                    lemma_remove_pair(self.subscriptions@, i as int);
                }
                let _ = self.subscriptions.remove(i);
                proof {
                    assert(self.subscribers_of(topic@) =~= old(self).subscribers_of(
                        topic@,
                    ).remove(subscriber@));
                }
                return ;
            }
            i = i + 1;
        }
    }

    /// Dispatches one `Publish`: every subscriber of `topic` that the
    /// registry resolves is owed exactly one `Notification{topic, message}`
    /// (returned as a [`Delivery`] batch), and every subscriber it does not
    /// resolve is pruned from the topic's set. Other topics are untouched. A
    /// topic without subscribers yields an empty batch: a successful no-op.
    pub fn publish(&mut self, topic: &String, message: &String, registry: &Registry) -> (out: Vec<
        Delivery,
    >)
        requires
            old(self).wf(),
            registry.wf(),
        ensures
            final(self).wf(),
            forall|t: Seq<char>, s: Seq<char>|
                final(self).spec_subscribed(t, s) <==> (old(self).spec_subscribed(t, s) && (t
                    != topic@ || registry.contains_name(s))),
            final(self).subscribers_of(topic@) =~= old(self).subscribers_of(topic@).intersect(
                Set::new(|s: Seq<char>| registry.contains_name(s)),
            ),
            forall|a: int|
                0 <= a < out@.len() ==> (old(self).spec_subscribed(topic@, out@[a].subscriber@)
                    && registry.contains_name(out@[a].subscriber@) && out@[a].handle
                    == registry.handle_of(out@[a].subscriber@) && out@[a].message@ == (
                ClientMessageView::Notification { topic: topic@, message: message@ })),
            forall|a: int, b: int|
                0 <= a < b < out@.len() ==> out@[a].subscriber@ != out@[b].subscriber@,
            forall|s: Seq<char>|
                old(self).spec_subscribed(topic@, s) && registry.contains_name(s) ==> exists|a: int|
                    0 <= a < out@.len() && out@[a].subscriber@ == s,
    {
        let ghost q = old(self).subscriptions@;
        let mut kept: Vec<Subscription> = Vec::new();
        let mut out: Vec<Delivery> = Vec::new();
        let n = self.subscriptions.len();
        let mut i: usize = 0;
        while i < n
            invariant
                *self == *old(self),
                old(self).wf(),
                registry.wf(),
                q == self.subscriptions@,
                n == q.len(),
                i <= n,
                unique_pairs(kept@),
                forall|t: Seq<char>, s: Seq<char>|
                    has_pair(kept@, t, s) <==> (has_pair_upto(q, t, s, i as int) && (t != topic@
                        || registry.contains_name(s))),
                sourced(q, kept@, i as int),
                forall|a: int|
                    0 <= a < out@.len() ==> (has_pair_upto(q, topic@, out@[a].subscriber@, i as int)
                        && registry.contains_name(out@[a].subscriber@) && out@[a].handle
                        == registry.handle_of(out@[a].subscriber@) && out@[a].message@ == (
                    ClientMessageView::Notification { topic: topic@, message: message@ })),
                forall|a: int, b: int|
                    0 <= a < b < out@.len() ==> out@[a].subscriber@ != out@[b].subscriber@,
                forall|s: Seq<char>|
                    has_pair_upto(q, topic@, s, i as int) && registry.contains_name(s) ==> exists|
                        a: int,
                    | 0 <= a < out@.len() && out@[a].subscriber@ == s,
            decreases n - i,
        {
            let ghost kept0 = kept@;
            let ghost out0 = out@;
            let ghost i0 = i as int;
            if self.subscriptions[i].topic == *topic {
                let sub_name = self.subscriptions[i].subscriber.clone();
                let resolved = registry.lookup(&sub_name);
                match resolved {
                    Ok(h) => {
                        out.push(
                            Delivery {
                                subscriber: sub_name.clone(),
                                handle: h,
                                message: ClientMessage::Notification {
                                    topic: topic.clone(),
                                    message: message.clone(),
                                },
                            },
                        );
                        kept.push(
                            Subscription { topic: self.subscriptions[i].topic.clone(), subscriber: sub_name },
                        );
                        proof {
                            lemma_publish_step(
                                q,
                                kept0,
                                kept@,
                                out0,
                                out@,
                                i0,
                                topic@,
                                message@,
                                registry,
                                true,
                            );
                        }
                    },
                    Err(_) => {
                        proof {
                            lemma_publish_skip(q, kept0, out0, i0, topic@, message@, registry);
                        }
                    },
                }
            } else {
                kept.push(
                    Subscription {
                        topic: self.subscriptions[i].topic.clone(),
                        subscriber: self.subscriptions[i].subscriber.clone(),
                    },
                );
                proof {
                    lemma_publish_step(
                        q,
                        kept0,
                        kept@,
                        out0,
                        out@,
                        i0,
                        topic@,
                        message@,
                        registry,
                        false,
                    );
                }
            }
            i = i + 1;
        }
        self.subscriptions = kept;
        proof {
            assert(self.subscribers_of(topic@) =~= old(self).subscribers_of(topic@).intersect(
                Set::new(|s: Seq<char>| registry.contains_name(s)),
            ));
        }
        out
    }
}

/// Re-establishes the `publish` loop invariants after the entry at `i` was
/// kept (and, when `delivered`, a notification for it was appended).
proof fn lemma_publish_step(
    q: Seq<Subscription>,
    kept0: Seq<Subscription>,
    kept1: Seq<Subscription>,
    out0: Seq<Delivery>,
    out1: Seq<Delivery>,
    i: int,
    topic: Seq<char>,
    message: Seq<char>,
    registry: &Registry,
    delivered: bool,
)
    requires
        unique_pairs(q),
        registry.wf(),
        0 <= i < q.len(),
        unique_pairs(kept0),
        kept1.len() == kept0.len() + 1,
        forall|k: int| 0 <= k < kept0.len() ==> kept1[k] == kept0[k],
        kept1.last().topic@ == q[i].topic@,
        kept1.last().subscriber@ == q[i].subscriber@,
        delivered ==> q[i].topic@ == topic && registry.contains_name(q[i].subscriber@),
        !delivered ==> q[i].topic@ != topic && out1 == out0,
        delivered ==> out1.len() == out0.len() + 1 && (forall|a: int|
            0 <= a < out0.len() ==> out1[a] == out0[a]) && out1.last().subscriber@ == q[
            i
        ].subscriber@ && out1.last().handle == registry.handle_of(q[i].subscriber@)
            && out1.last().message@ == (ClientMessageView::Notification {
            topic: topic,
            message: message,
        }),
        forall|t: Seq<char>, s: Seq<char>|
            has_pair(kept0, t, s) <==> (has_pair_upto(q, t, s, i) && (t != topic
                || registry.contains_name(s))),
        sourced(q, kept0, i),
        forall|a: int|
            0 <= a < out0.len() ==> (has_pair_upto(q, topic, out0[a].subscriber@, i)
                && registry.contains_name(out0[a].subscriber@) && out0[a].handle
                == registry.handle_of(out0[a].subscriber@) && out0[a].message@ == (
            ClientMessageView::Notification { topic: topic, message: message })),
        forall|a: int, b: int| 0 <= a < b < out0.len() ==> out0[a].subscriber@ != out0[b].subscriber@,
        forall|s: Seq<char>|
            has_pair_upto(q, topic, s, i) && registry.contains_name(s) ==> exists|a: int|
                0 <= a < out0.len() && out0[a].subscriber@ == s,
    ensures
        unique_pairs(kept1),
        forall|t: Seq<char>, s: Seq<char>|
            has_pair(kept1, t, s) <==> (has_pair_upto(q, t, s, i + 1) && (t != topic
                || registry.contains_name(s))),
        sourced(q, kept1, i + 1),
        forall|a: int|
            0 <= a < out1.len() ==> (has_pair_upto(q, topic, out1[a].subscriber@, i + 1)
                && registry.contains_name(out1[a].subscriber@) && out1[a].handle
                == registry.handle_of(out1[a].subscriber@) && out1[a].message@ == (
            ClientMessageView::Notification { topic: topic, message: message })),
        forall|a: int, b: int| 0 <= a < b < out1.len() ==> out1[a].subscriber@ != out1[b].subscriber@,
        forall|s: Seq<char>|
            has_pair_upto(q, topic, s, i + 1) && registry.contains_name(s) ==> exists|a: int|
                0 <= a < out1.len() && out1[a].subscriber@ == s,
{
    let e = kept1.last();
    // The new pair was not already kept: a kept copy would have a source
    // before i that duplicates the pair at i.
    assert(!has_pair(kept0, e.topic@, e.subscriber@)) by {
        if has_pair(kept0, e.topic@, e.subscriber@) {
            let k = choose|k: int|
                0 <= k < kept0.len() && kept0[k].topic@ == e.topic@ && kept0[k].subscriber@
                    == e.subscriber@;
            let o = choose|o: int|
                0 <= o < i && q[o].topic@ == kept0[k].topic@ && q[o].subscriber@ == kept0[
                    k
                ].subscriber@;
            assert(!(q[o].topic@ == q[i].topic@ && q[o].subscriber@ == q[i].subscriber@));
        }
    }
    assert(kept1 =~= kept0.push(e));
    lemma_push_pair(kept0, e);
    assert forall|t: Seq<char>, s: Seq<char>| has_pair(kept1, t, s) <==> (has_pair_upto(
        q,
        t,
        s,
        i + 1,
    ) && (t != topic || registry.contains_name(s))) by {
        if has_pair(kept1, t, s) {
            if has_pair(kept0, t, s) {
                let k = choose|k: int| 0 <= k < i && k < q.len() && q[k].topic@ == t && q[k].subscriber@ == s;
                assert(has_pair_upto(q, t, s, i + 1));
            } else {
                assert(t == e.topic@ && s == e.subscriber@);
                assert(q[i].topic@ == t && q[i].subscriber@ == s);
                assert(has_pair_upto(q, t, s, i + 1));
                if t == topic {
                    assert(delivered);
                }
            }
        }
        if has_pair_upto(q, t, s, i + 1) && (t != topic || registry.contains_name(s)) {
            let k = choose|k: int| 0 <= k < i + 1 && k < q.len() && q[k].topic@ == t && q[k].subscriber@ == s;
            if k < i {
                assert(has_pair_upto(q, t, s, i));
                assert(has_pair(kept0, t, s));
            } else {
                assert(t == e.topic@ && s == e.subscriber@);
            }
        }
    }
    assert forall|k: int| #![trigger kept1[k]] 0 <= k < kept1.len() implies exists|o: int|
        0 <= o < i + 1 && q[o].topic@ == kept1[k].topic@ && q[o].subscriber@ == kept1[
            k
        ].subscriber@ by {
        assert(sourced(q, kept0, i));
        if k < kept0.len() {
            let o = choose|o: int|
                0 <= o < i && q[o].topic@ == kept0[k].topic@ && q[o].subscriber@ == kept0[
                    k
                ].subscriber@;
            assert(q[o].topic@ == kept1[k].topic@ && q[o].subscriber@ == kept1[k].subscriber@);
        } else {
            assert(q[i].topic@ == kept1[k].topic@ && q[i].subscriber@ == kept1[k].subscriber@);
        }
    }
    if delivered {
        let d = out1.last();
        assert forall|a: int| 0 <= a < out1.len() implies (has_pair_upto(
            q,
            topic,
            out1[a].subscriber@,
            i + 1,
        ) && registry.contains_name(out1[a].subscriber@) && out1[a].handle == registry.handle_of(
            out1[a].subscriber@,
        ) && out1[a].message@ == (ClientMessageView::Notification {
            topic: topic,
            message: message,
        })) by {
            if a < out0.len() {
                assert(out1[a] == out0[a]);
                let k = choose|k: int|
                    0 <= k < i && k < q.len() && q[k].topic@ == topic && q[k].subscriber@ == out0[
                        a
                    ].subscriber@;
                assert(has_pair_upto(q, topic, out1[a].subscriber@, i + 1));
            } else {
                assert(out1[a] == d);
                assert(q[i].topic@ == topic && q[i].subscriber@ == d.subscriber@);
                assert(has_pair_upto(q, topic, d.subscriber@, i + 1));
            }
        }
        assert forall|a: int, b: int| 0 <= a < b < out1.len() implies out1[a].subscriber@ != out1[
            b
        ].subscriber@ by {
            if b == out0.len() {
                assert(out1[a] == out0[a]);
                assert(out1[b] == d);
                if out0[a].subscriber@ == d.subscriber@ {
                    let k = choose|k: int|
                        0 <= k < i && k < q.len() && q[k].topic@ == topic && q[k].subscriber@
                            == out0[a].subscriber@;
                    assert(!(q[k].topic@ == q[i].topic@ && q[k].subscriber@ == q[i].subscriber@));
                }
            } else {
                assert(out1[a] == out0[a] && out1[b] == out0[b]);
            }
        }
        assert forall|s: Seq<char>|
            has_pair_upto(q, topic, s, i + 1) && registry.contains_name(s) implies exists|a: int|
            0 <= a < out1.len() && out1[a].subscriber@ == s by {
            let k = choose|k: int|
                0 <= k < i + 1 && k < q.len() && q[k].topic@ == topic && q[k].subscriber@ == s;
            if k < i {
                assert(has_pair_upto(q, topic, s, i));
                let a = choose|a: int| 0 <= a < out0.len() && out0[a].subscriber@ == s;
                assert(out1[a] == out0[a]);
                assert(out1[a].subscriber@ == s);
            } else {
                assert(d.subscriber@ == s);
                assert(out1[out0.len() as int] == d);
            }
        }
    } else {
        assert forall|a: int| 0 <= a < out1.len() implies (has_pair_upto(
            q,
            topic,
            out1[a].subscriber@,
            i + 1,
        ) && registry.contains_name(out1[a].subscriber@) && out1[a].handle == registry.handle_of(
            out1[a].subscriber@,
        ) && out1[a].message@ == (ClientMessageView::Notification {
            topic: topic,
            message: message,
        })) by {
            let k = choose|k: int|
                0 <= k < i && k < q.len() && q[k].topic@ == topic && q[k].subscriber@ == out0[
                    a
                ].subscriber@;
            assert(has_pair_upto(q, topic, out1[a].subscriber@, i + 1));
        }
        assert forall|s: Seq<char>|
            has_pair_upto(q, topic, s, i + 1) && registry.contains_name(s) implies exists|a: int|
            0 <= a < out1.len() && out1[a].subscriber@ == s by {
            let k = choose|k: int|
                0 <= k < i + 1 && k < q.len() && q[k].topic@ == topic && q[k].subscriber@ == s;
            assert(k < i || (q[k].topic@ == q[i].topic@ && k == i));
            assert(has_pair_upto(q, topic, s, i));
        }
    }
}

/// Re-establishes the `publish` loop invariants after the entry at `i` was
/// pruned: its topic matched but the registry does not resolve its name.
proof fn lemma_publish_skip(
    q: Seq<Subscription>,
    kept0: Seq<Subscription>,
    out0: Seq<Delivery>,
    i: int,
    topic: Seq<char>,
    message: Seq<char>,
    registry: &Registry,
)
    requires
        unique_pairs(q),
        registry.wf(),
        0 <= i < q.len(),
        q[i].topic@ == topic,
        !registry.contains_name(q[i].subscriber@),
        forall|t: Seq<char>, s: Seq<char>|
            has_pair(kept0, t, s) <==> (has_pair_upto(q, t, s, i) && (t != topic
                || registry.contains_name(s))),
        forall|s: Seq<char>|
            has_pair_upto(q, topic, s, i) && registry.contains_name(s) ==> exists|a: int|
                0 <= a < out0.len() && out0[a].subscriber@ == s,
    ensures
        forall|t: Seq<char>, s: Seq<char>|
            has_pair(kept0, t, s) <==> (has_pair_upto(q, t, s, i + 1) && (t != topic
                || registry.contains_name(s))),
        forall|s: Seq<char>|
            has_pair_upto(q, topic, s, i + 1) && registry.contains_name(s) ==> exists|a: int|
                0 <= a < out0.len() && out0[a].subscriber@ == s,
{
    assert forall|t: Seq<char>, s: Seq<char>| has_pair(kept0, t, s) <==> (has_pair_upto(
        q,
        t,
        s,
        i + 1,
    ) && (t != topic || registry.contains_name(s))) by {
        if has_pair(kept0, t, s) {
            let k = choose|k: int| 0 <= k < i && k < q.len() && q[k].topic@ == t && q[k].subscriber@ == s;
            assert(has_pair_upto(q, t, s, i + 1));
        }
        if has_pair_upto(q, t, s, i + 1) && (t != topic || registry.contains_name(s)) {
            let k = choose|k: int| 0 <= k < i + 1 && k < q.len() && q[k].topic@ == t && q[k].subscriber@ == s;
            if k == i {
                assert(t == topic && s == q[i].subscriber@);
                assert(false);
            }
            assert(has_pair_upto(q, t, s, i));
        }
    }
    assert forall|s: Seq<char>|
        has_pair_upto(q, topic, s, i + 1) && registry.contains_name(s) implies exists|a: int|
        0 <= a < out0.len() && out0[a].subscriber@ == s by {
        let k = choose|k: int|
            0 <= k < i + 1 && k < q.len() && q[k].topic@ == topic && q[k].subscriber@ == s;
        if k == i {
            assert(false);
        }
        assert(has_pair_upto(q, topic, s, i));
    }
}

/// Mathematical model of a [`LogEvent`].
pub enum LogEventView {
    Subscribed { topic: Seq<char>, subscriber: Seq<char> },
    Unsubscribed { topic: Seq<char>, subscriber: Seq<char> },
    Published { topic: Seq<char>, message: Seq<char> },
    Internal { topic: Seq<char>, message: Seq<char> },
    Notice(Seq<char>),
}

/// One structured line the broker asks the logging sink to record; the sink
/// does the formatting and printing.
pub enum LogEvent {
    Subscribed { topic: String, subscriber: String },
    Unsubscribed { topic: String, subscriber: String },
    Published { topic: String, message: String },
    Internal { topic: String, message: String },
    Notice(String),
}

impl View for LogEvent {
    type V = LogEventView;

    open spec fn view(&self) -> LogEventView {
        match self {
            LogEvent::Subscribed { topic, subscriber } => LogEventView::Subscribed {
                topic: topic@,
                subscriber: subscriber@,
            },
            LogEvent::Unsubscribed { topic, subscriber } => LogEventView::Unsubscribed {
                topic: topic@,
                subscriber: subscriber@,
            },
            LogEvent::Published { topic, message } => LogEventView::Published {
                topic: topic@,
                message: message@,
            },
            LogEvent::Internal { topic, message } => LogEventView::Internal {
                topic: topic@,
                message: message@,
            },
            LogEvent::Notice(text) => LogEventView::Notice(text@),
        }
    }
}

/// Everything one broker handler invocation asks the runtime to do besides
/// mutating the broker's own state: notifications to enqueue and lines to log.
pub struct HandlerEffects {
    pub deliveries: Vec<Delivery>,
    pub log: Vec<LogEvent>,
}

impl Broker {
    /// The broker's handler: dispatches one accepted `BrokerMessage`.
    ///
    /// `Subscribe` and `Unsubscribe` mutate the subscription table as
    /// [`Broker::subscribe`] and [`Broker::unsubscribe`] do; `Publish`
    /// dispatches as [`Broker::publish`] does; `InternalMessage` and `Notify`
    /// are diagnostic and only log. The broker never fails on
    /// application-level issues: every accepted message is handled in-band.
    pub fn handle(&mut self, msg: BrokerMessage, registry: &Registry) -> (eff: HandlerEffects)
        requires
            old(self).wf(),
            registry.wf(),
        ensures
            final(self).wf(),
            msg@ matches BrokerMessageView::Subscribe { topic, subscriber } ==> ({
                &&& forall|s: Seq<char>|
                    final(self).spec_subscribed(topic, s) <==> (old(self).spec_subscribed(topic, s)
                        || s == subscriber)
                &&& forall|t: Seq<char>, s: Seq<char>|
                    t != topic ==> (final(self).spec_subscribed(t, s) <==> old(
                        self,
                    ).spec_subscribed(t, s))
                &&& eff.deliveries@.len() == 0
                &&& eff.log@.len() == 1
                &&& eff.log@[0]@ == (LogEventView::Subscribed { topic, subscriber })
            }),
            msg@ matches BrokerMessageView::Unsubscribe { topic, subscriber } ==> ({
                &&& forall|t: Seq<char>, s: Seq<char>|
                    final(self).spec_subscribed(t, s) <==> (old(self).spec_subscribed(t, s) && !(t
                        == topic && s == subscriber))
                &&& eff.deliveries@.len() == 0
                &&& eff.log@.len() == 1
                &&& eff.log@[0]@ == (LogEventView::Unsubscribed { topic, subscriber })
            }),
            msg@ matches BrokerMessageView::Publish { topic, message } ==> ({
                &&& forall|t: Seq<char>, s: Seq<char>|
                    final(self).spec_subscribed(t, s) <==> (old(self).spec_subscribed(t, s) && (t
                        != topic || registry.contains_name(s)))
                &&& forall|a: int|
                    0 <= a < eff.deliveries@.len() ==> (old(self).spec_subscribed(
                        topic,
                        eff.deliveries@[a].subscriber@,
                    ) && registry.contains_name(eff.deliveries@[a].subscriber@)
                        && eff.deliveries@[a].handle == registry.handle_of(
                        eff.deliveries@[a].subscriber@,
                    ) && eff.deliveries@[a].message@ == (ClientMessageView::Notification {
                        topic,
                        message,
                    }))
                &&& forall|a: int, b: int|
                    0 <= a < b < eff.deliveries@.len() ==> eff.deliveries@[a].subscriber@
                        != eff.deliveries@[b].subscriber@
                &&& forall|s: Seq<char>|
                    old(self).spec_subscribed(topic, s) && registry.contains_name(s) ==> exists|
                        a: int,
                    | 0 <= a < eff.deliveries@.len() && eff.deliveries@[a].subscriber@ == s
                &&& eff.log@.len() == 1
                &&& eff.log@[0]@ == (LogEventView::Published { topic, message })
            }),
            msg@ matches BrokerMessageView::InternalMessage { topic, message } ==> ({
                &&& *final(self) == *old(self)
                &&& eff.deliveries@.len() == 0
                &&& eff.log@.len() == 1
                &&& eff.log@[0]@ == (LogEventView::Internal { topic, message })
            }),
            msg@ matches BrokerMessageView::Notify(text) ==> ({
                &&& *final(self) == *old(self)
                &&& eff.deliveries@.len() == 0
                &&& eff.log@.len() == 1
                &&& eff.log@[0]@ == (LogEventView::Notice(text))
            }),
    {
        match msg {
            BrokerMessage::Subscribe { topic, subscriber } => {
                let ev = LogEvent::Subscribed {
                    topic: topic.clone(),
                    subscriber: subscriber.clone(),
                };
                self.subscribe(topic, subscriber);
                let mut log: Vec<LogEvent> = Vec::new();
                log.push(ev);
                HandlerEffects { deliveries: Vec::new(), log }
            },
            BrokerMessage::Unsubscribe { topic, subscriber } => {
                self.unsubscribe(&topic, &subscriber);
                let mut log: Vec<LogEvent> = Vec::new();
                log.push(LogEvent::Unsubscribed { topic, subscriber });
                HandlerEffects { deliveries: Vec::new(), log }
            },
            BrokerMessage::Publish { topic, message } => {
                let deliveries = self.publish(&topic, &message, registry);
                let ghost batch = deliveries@;
                let mut log: Vec<LogEvent> = Vec::new();
                let ghost t = topic@;
                log.push(LogEvent::Published { topic, message });
                let eff = HandlerEffects { deliveries, log };
                proof {
                    assert forall|s: Seq<char>|
                        old(self).spec_subscribed(t, s) && registry.contains_name(s) implies exists|
                        a: int,
                    | 0 <= a < eff.deliveries@.len() && eff.deliveries@[a].subscriber@ == s by {
                        let a = choose|a: int| 0 <= a < batch.len() && batch[a].subscriber@ == s;
                        assert(eff.deliveries@[a].subscriber@ == s);
                    }
                }
                eff
            },
            BrokerMessage::InternalMessage { topic, message } => {
                let mut log: Vec<LogEvent> = Vec::new();
                log.push(LogEvent::Internal { topic, message });
                HandlerEffects { deliveries: Vec::new(), log }
            },
            BrokerMessage::Notify(text) => {
                let mut log: Vec<LogEvent> = Vec::new();
                log.push(LogEvent::Notice(text));
                HandlerEffects { deliveries: Vec::new(), log }
            },
        }
    }
}

/// Law: a subscription, once present, survives an unsubscribe of any other
/// pair. The hypotheses are exactly what `unsubscribe(ut, us)` ensures of the
/// broker state before and after the call.
pub proof fn lemma_unsubscribe_retains(
    pre: Broker,
    post: Broker,
    ut: Seq<char>,
    us: Seq<char>,
    t: Seq<char>,
    s: Seq<char>,
)
    requires
        forall|t2: Seq<char>, s2: Seq<char>|
            post.spec_subscribed(t2, s2) <==> (pre.spec_subscribed(t2, s2) && !(t2 == ut && s2
                == us)),
        pre.spec_subscribed(t, s),
        !(t == ut && s == us),
    ensures
        post.spec_subscribed(t, s),
{
}

/// Law: a subscription survives a publish to any topic while the registry
/// still resolves the subscriber's name. The hypothesis is exactly what
/// `publish(pt, _)` ensures of the broker state before and after the call.
pub proof fn lemma_publish_retains(
    pre: Broker,
    post: Broker,
    registry: &Registry,
    pt: Seq<char>,
    t: Seq<char>,
    s: Seq<char>,
)
    requires
        forall|t2: Seq<char>, s2: Seq<char>|
            post.spec_subscribed(t2, s2) <==> (pre.spec_subscribed(t2, s2) && (t2 != pt
                || registry.contains_name(s2))),
        pre.spec_subscribed(t, s),
        registry.contains_name(s),
    ensures
        post.spec_subscribed(t, s),
{
}

/// Law: subscribing the same pair twice leaves every topic's subscriber set
/// exactly as after the single subscribe. The hypotheses are what
/// `subscribe(topic, subscriber)` ensures for the first call (`b0` to `b1`)
/// and the second (`b1` to `b2`).
pub proof fn lemma_subscribe_idempotent(
    b0: Broker,
    b1: Broker,
    b2: Broker,
    topic: Seq<char>,
    subscriber: Seq<char>,
)
    requires
        forall|s: Seq<char>|
            b1.spec_subscribed(topic, s) <==> (b0.spec_subscribed(topic, s) || s == subscriber),
        forall|t: Seq<char>, s: Seq<char>|
            t != topic ==> (b1.spec_subscribed(t, s) <==> b0.spec_subscribed(t, s)),
        forall|s: Seq<char>|
            b2.spec_subscribed(topic, s) <==> (b1.spec_subscribed(topic, s) || s == subscriber),
        forall|t: Seq<char>, s: Seq<char>|
            t != topic ==> (b2.spec_subscribed(t, s) <==> b1.spec_subscribed(t, s)),
    ensures
        forall|t: Seq<char>, s: Seq<char>| b2.spec_subscribed(t, s) <==> b1.spec_subscribed(t, s),
        b2.subscribers_of(topic) =~= b1.subscribers_of(topic),
{
    assert forall|t: Seq<char>, s: Seq<char>| b2.spec_subscribed(t, s) <==> b1.spec_subscribed(
        t,
        s,
    ) by {
        if t == topic {
            assert(b2.spec_subscribed(topic, s) <==> (b1.spec_subscribed(topic, s) || s
                == subscriber));
            assert(b1.spec_subscribed(topic, s) <==> (b0.spec_subscribed(topic, s) || s
                == subscriber));
        }
    }
}

/// Law: for every subscriber `s` of the published topic at the moment of
/// dispatch, either the registry resolves `s` and exactly one delivery in the
/// batch is addressed to it (and it stays subscribed), or the registry does
/// not resolve `s`, no delivery is addressed to it, and it is pruned. The
/// hypotheses are exactly what `publish(topic, message)` ensures.
pub proof fn lemma_publish_exactly_once(
    pre: Broker,
    post: Broker,
    out: Seq<Delivery>,
    registry: &Registry,
    topic: Seq<char>,
    s: Seq<char>,
)
    requires
        forall|t2: Seq<char>, s2: Seq<char>|
            post.spec_subscribed(t2, s2) <==> (pre.spec_subscribed(t2, s2) && (t2 != topic
                || registry.contains_name(s2))),
        forall|a: int|
            0 <= a < out.len() ==> pre.spec_subscribed(topic, out[a].subscriber@)
                && registry.contains_name(out[a].subscriber@),
        forall|a: int, b: int| 0 <= a < b < out.len() ==> out[a].subscriber@ != out[b].subscriber@,
        forall|s2: Seq<char>|
            pre.spec_subscribed(topic, s2) && registry.contains_name(s2) ==> exists|a: int|
                0 <= a < out.len() && out[a].subscriber@ == s2,
        pre.spec_subscribed(topic, s),
    ensures
        registry.contains_name(s) ==> post.spec_subscribed(topic, s) && exists|a: int|
            0 <= a < out.len() && out[a].subscriber@ == s && (forall|b: int|
                0 <= b < out.len() && out[b].subscriber@ == s ==> b == a),
        !registry.contains_name(s) ==> !post.spec_subscribed(topic, s) && forall|a: int|
            0 <= a < out.len() ==> out[a].subscriber@ != s,
{
    if registry.contains_name(s) {
        let a = choose|a: int| 0 <= a < out.len() && out[a].subscriber@ == s;
        assert forall|b: int| 0 <= b < out.len() && out[b].subscriber@ == s implies b == a by {
            if b < a {
                assert(out[b].subscriber@ != out[a].subscriber@);
            } else if a < b {
                assert(out[a].subscriber@ != out[b].subscriber@);
            }
        }
        assert(0 <= a < out.len() && out[a].subscriber@ == s && (forall|b: int|
            0 <= b < out.len() && out[b].subscriber@ == s ==> b == a));
    } else {
        assert forall|a: int| 0 <= a < out.len() implies out[a].subscriber@ != s by {
            if out[a].subscriber@ == s {
                assert(registry.contains_name(out[a].subscriber@));
            }
        }
    }
}

} // verus!
