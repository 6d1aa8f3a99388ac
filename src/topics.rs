//! The topic store: every topic by name, and the operations that change it.

use vstd::prelude::*;

use crate::error::{PubOrSub, TopicErrorView, TopicManagerError};
use crate::names::{distinct_names, name_set, push_name};
use crate::topic::{lemma_without_absent_publisher, lemma_without_absent_subscriber, Topic, TopicView};

verus! {

/// All topics, keyed by name.
pub type TopicMap = Map<Seq<char>, TopicView>;

/// The topics of a list, keyed by name.
pub open spec fn topic_map(v: Seq<Topic>) -> TopicMap {
    Map::new(
        |k: Seq<char>| exists|i: int| 0 <= i < v.len() && v[i].spec_name() == k,
        |k: Seq<char>| v[choose|i: int| 0 <= i < v.len() && v[i].spec_name() == k]@,
    )
}

/// No two topics of the list share their name.
pub open spec fn distinct_topics(v: Seq<Topic>) -> bool {
    forall|i: int, j: int|
        0 <= i < v.len() && 0 <= j < v.len() && i != j ==> v[i].spec_name() != v[j].spec_name()
}

/// The topic named `t` as it stands, or a fresh one of type `ty`.
pub open spec fn declared(m: TopicMap, t: Seq<char>, ty: Seq<char>) -> TopicView {
    if m.contains_key(t) {
        m[t]
    } else {
        TopicView::fresh(ty)
    }
}

/// Topic `t` exists with a message type other than `ty`.
pub open spec fn type_conflict(m: TopicMap, t: Seq<char>, ty: Seq<char>) -> bool {
    m.contains_key(t) && m[t].msg_type != ty
}

/// `m` with topic `t` set to `tv`, or without `t` where `tv` is empty.
pub open spec fn settle(m: TopicMap, t: Seq<char>, tv: TopicView) -> TopicMap {
    if tv.is_empty() {
        m.remove(t)
    } else {
        m.insert(t, tv)
    }
}

/// `m` after node `n` has left every topic; topics left empty are gone.
pub open spec fn without_node(m: TopicMap, n: Seq<char>) -> TopicMap {
    Map::new(
        |k: Seq<char>| m.contains_key(k) && !m[k].without_node(n).is_empty(),
        |k: Seq<char>| m[k].without_node(n),
    )
}

/// The names of the topics on which `n` holds role `side`.
pub open spec fn topics_of(m: TopicMap, n: Seq<char>, side: PubOrSub) -> Set<Seq<char>> {
    Set::new(
        |k: Seq<char>|
            m.contains_key(k) && match side {
                PubOrSub::Publisher => m[k].publishers.contains(n),
                PubOrSub::Subscriber => m[k].subscribers.contains(n),
            },
    )
}

/// Every topic has a member, and every channel joins a publisher of its
/// topic to a subscriber of it.
pub open spec fn topics_sound(m: TopicMap) -> bool {
    forall|k: Seq<char>| #[trigger]
        m.contains_key(k) ==> m[k].channels_matched() && !m[k].is_empty()
}

pub proof fn lemma_topic_map_at(v: Seq<Topic>, i: int)
    requires
        distinct_topics(v),
        0 <= i < v.len(),
    ensures
        topic_map(v).contains_key(v[i].spec_name()),
        topic_map(v)[v[i].spec_name()] == v[i]@,
{
    let k = v[i].spec_name();
    assert(topic_map(v).contains_key(k));
    let j = choose|j: int| 0 <= j < v.len() && v[j].spec_name() == k;
    assert(j == i);
}

pub proof fn lemma_topic_map_push(v: Seq<Topic>, t: Topic)
    requires
        distinct_topics(v),
        !topic_map(v).contains_key(t.spec_name()),
    ensures
        distinct_topics(v.push(t)),
        topic_map(v.push(t)) == topic_map(v).insert(t.spec_name(), t@),
{
    let w = v.push(t);
    assert forall|i: int, j: int| 0 <= i < w.len() && 0 <= j < w.len() && i != j implies w[i].spec_name()
        != w[j].spec_name() by {
        if i == v.len() {
            assert(!(0 <= j < v.len() && v[j].spec_name() == t.spec_name()));
        } else if j == v.len() {
            assert(!(0 <= i < v.len() && v[i].spec_name() == t.spec_name()));
        }
    }
    let m = topic_map(v).insert(t.spec_name(), t@);
    assert forall|k: Seq<char>| #[trigger] m.contains_key(k) implies topic_map(w).contains_key(k)
        && topic_map(w)[k] == m[k] by {
        if k == t.spec_name() {
            lemma_topic_map_at(w, v.len() as int);
        } else {
            let i = choose|i: int| 0 <= i < v.len() && v[i].spec_name() == k;
            lemma_topic_map_at(v, i);
            assert(w[i] == v[i]);
            lemma_topic_map_at(w, i);
        }
    }
    assert forall|k: Seq<char>| #[trigger] topic_map(w).contains_key(k) implies m.contains_key(k) by {
        let i = choose|i: int| 0 <= i < w.len() && w[i].spec_name() == k;
        if i < v.len() {
            assert(v[i] == w[i]);
        }
    }
    assert(topic_map(w) =~= m);
}

pub proof fn lemma_topic_map_update(v: Seq<Topic>, i: int, t: Topic)
    requires
        distinct_topics(v),
        0 <= i < v.len(),
        t.spec_name() == v[i].spec_name(),
    ensures
        distinct_topics(v.update(i, t)),
        topic_map(v.update(i, t)) == topic_map(v).insert(t.spec_name(), t@),
{
    let w = v.update(i, t);
    assert(distinct_topics(w)) by {
        assert forall|a: int, b: int| 0 <= a < w.len() && 0 <= b < w.len() && a != b implies w[a].spec_name()
            != w[b].spec_name() by {
            assert(w[a].spec_name() == v[a].spec_name());
            assert(w[b].spec_name() == v[b].spec_name());
        }
    }
    let m = topic_map(v).insert(t.spec_name(), t@);
    assert forall|k: Seq<char>| #[trigger] m.contains_key(k) implies topic_map(w).contains_key(k)
        && topic_map(w)[k] == m[k] by {
        if k == t.spec_name() {
            lemma_topic_map_at(w, i);
        } else {
            let j = choose|j: int| 0 <= j < v.len() && v[j].spec_name() == k;
            lemma_topic_map_at(v, j);
            assert(w[j] == v[j]);
            lemma_topic_map_at(w, j);
        }
    }
    assert forall|k: Seq<char>| #[trigger] topic_map(w).contains_key(k) implies m.contains_key(k) by {
        let j = choose|j: int| 0 <= j < w.len() && w[j].spec_name() == k;
        if j != i {
            assert(v[j] == w[j]);
        }
    }
    assert(topic_map(w) =~= m);
}

pub proof fn lemma_topic_map_remove(v: Seq<Topic>, i: int)
    requires
        distinct_topics(v),
        0 <= i < v.len(),
    ensures
        distinct_topics(v.remove(i)),
        topic_map(v.remove(i)) == topic_map(v).remove(v[i].spec_name()),
{
    let w = v.remove(i);
    assert(distinct_topics(w)) by {
        assert forall|a: int, b: int| 0 <= a < w.len() && 0 <= b < w.len() && a != b implies w[a].spec_name()
            != w[b].spec_name() by {
            let a0 = if a < i { a } else { a + 1 };
            let b0 = if b < i { b } else { b + 1 };
            assert(w[a] == v[a0] && w[b] == v[b0]);
        }
    }
    let m = topic_map(v).remove(v[i].spec_name());
    assert forall|k: Seq<char>| #[trigger] m.contains_key(k) implies topic_map(w).contains_key(k)
        && topic_map(w)[k] == m[k] by {
        let j = choose|j: int| 0 <= j < v.len() && v[j].spec_name() == k;
        lemma_topic_map_at(v, j);
        assert(j != i);
        let j0 = if j < i { j } else { j - 1 };
        assert(w[j0] == v[j]);
        lemma_topic_map_at(w, j0);
    }
    assert forall|k: Seq<char>| #[trigger] topic_map(w).contains_key(k) implies m.contains_key(k) by {
        let j = choose|j: int| 0 <= j < w.len() && w[j].spec_name() == k;
        let j0 = if j < i { j } else { j + 1 };
        assert(w[j] == v[j0]);
        assert(j0 != i);
    }
    assert(topic_map(w) =~= m);
}

/// The topic registry, held in memory.
#[derive(Debug)]
pub struct MemoryTopicStorage {
    topics: Vec<Topic>,
}

impl View for MemoryTopicStorage {
    type V = TopicMap;

    closed spec fn view(&self) -> TopicMap {
        topic_map(self.topics@)
    }
}

impl MemoryTopicStorage {
    /// Names are unique and each topic is well formed.
    pub closed spec fn layout_ok(&self) -> bool {
        &&& distinct_topics(self.topics@)
        &&& forall|i: int| 0 <= i < self.topics@.len() ==> #[trigger] self.topics@[i].wf()
    }

    /// The registry is well formed: no topic is empty, and channels only
    /// join publishers to subscribers of their topic.
    pub open spec fn wf(&self) -> bool {
        &&& self.layout_ok()
        &&& topics_sound(self@)
    }

    /// An empty registry.
    pub fn new() -> (r: MemoryTopicStorage)
        ensures
            r.wf(),
            r@ == Map::<Seq<char>, TopicView>::empty(),
    {
        let r = MemoryTopicStorage { topics: Vec::new() };
        assert(r@ =~= Map::<Seq<char>, TopicView>::empty());
        r
    }

    /// Where topic `name` stands, if it exists.
    fn find(&self, name: &str) -> (r: Option<usize>)
        requires
            self.layout_ok(),
        ensures
            match r {
                Some(i) => {
                    &&& i < self.topics@.len()
                    &&& self.topics@[i as int].spec_name() == name@
                    &&& self@.contains_key(name@)
                    &&& self@[name@] == self.topics@[i as int]@
                },
                None => !self@.contains_key(name@),
            },
    {
        let n = name.to_owned();
        let mut i: usize = 0;
        while i < self.topics.len()
            invariant
                self.layout_ok(),
                n@ == name@,
                i <= self.topics@.len(),
                forall|j: int| 0 <= j < i ==> self.topics@[j].spec_name() != name@,
            decreases self.topics@.len() - i,
        {
            if *self.topics[i].name() == n {
                proof {
                    lemma_topic_map_at(self.topics@, i as int);
                }
                return Some(i);
            }
            i = i + 1;
        }
        None
    }

    /// Makes sure topic `topic_name` exists with type `msg_type`; says where it stands.
    fn add_topic_if_missing(&mut self, topic_name: &str, msg_type: &str) -> (r: Result<
        usize,
        TopicManagerError,
    >)
        requires
            old(self).wf(),
        ensures
            final(self).layout_ok(),
            type_conflict(old(self)@, topic_name@, msg_type@) ==> {
                &&& r is Err
                &&& r->Err_0@ == (TopicErrorView::TopicTypeDoesNotMatch {
                    topic_name: topic_name@,
                    requested_type: msg_type@,
                    real_type: old(self)@[topic_name@].msg_type,
                })
                &&& *final(self) == *old(self)
            },
            !type_conflict(old(self)@, topic_name@, msg_type@) ==> {
                &&& r is Ok
                &&& r->Ok_0 < final(self).topics@.len()
                &&& final(self).topics@[r->Ok_0 as int].spec_name() == topic_name@
                &&& final(self).topics@[r->Ok_0 as int]@ == declared(old(self)@, topic_name@, msg_type@)
                &&& final(self)@ == old(self)@.insert(topic_name@, declared(old(self)@, topic_name@, msg_type@))
            },
    {
        match self.find(topic_name) {
            Some(i) => {
                let ty = msg_type.to_owned();
                if *self.topics[i].msg_type() != ty {
                    return Err(
                        TopicManagerError::TopicTypeDoesNotMatch {
                            topic_name: topic_name.to_owned(),
                            requested_type: ty,
                            real_type: self.topics[i].msg_type().clone(),
                        },
                    );
                }
                assert(self@ =~= old(self)@.insert(topic_name@, declared(old(self)@, topic_name@, msg_type@)));
                Ok(i)
            },
            None => {
                let t = Topic::new(topic_name, msg_type);
                proof {
                    lemma_topic_map_push(self.topics@, t);
                }
                self.topics.push(t);
                Ok(self.topics.len() - 1)
            },
        }
    }

    /// Replaces topic `i`, after a change, in the view.
    proof fn lemma_changed_at(pre: Seq<Topic>, post: Seq<Topic>, i: int, t: Topic)
        requires
            distinct_topics(pre),
            forall|j: int| 0 <= j < pre.len() ==> #[trigger] pre[j].wf(),
            0 <= i < pre.len(),
            t.wf(),
            t.spec_name() == pre[i].spec_name(),
            post == pre.update(i, t),
        ensures
            distinct_topics(post),
            forall|j: int| 0 <= j < post.len() ==> #[trigger] post[j].wf(),
            topic_map(post) == topic_map(pre).insert(t.spec_name(), t@),
    {
        lemma_topic_map_update(pre, i, t);
    }

    fn remove_member(&mut self, node_name: &str, topic_name: &str, side: PubOrSub) -> (r: Result<
        (),
        TopicManagerError,
    >)
        requires
            old(self).wf(),
        ensures
            final(self).wf(),
            !old(self)@.contains_key(topic_name@) ==> {
                &&& r is Err
                &&& r->Err_0@ == TopicErrorView::TopicDoesNotExist(topic_name@)
                &&& final(self)@ == old(self)@
            },
            old(self)@.contains_key(topic_name@) ==> {
                &&& r is Ok
                &&& final(self)@ == settle(
                    old(self)@,
                    topic_name@,
                    match side {
                        PubOrSub::Publisher => old(self)@[topic_name@].without_publisher(node_name@),
                        PubOrSub::Subscriber => old(self)@[topic_name@].without_subscriber(node_name@),
                    },
                )
            },
    {
        let i = match self.find(topic_name) {
            Some(i) => i,
            None => {
                return Err(TopicManagerError::TopicDoesNotExist(topic_name.to_owned()));
            },
        };
        let ghost pre = self.topics@;
        let ghost tv = pre[i as int]@;
        proof {
            assert(pre[i as int].wf());
        }
        let left = match side {
            PubOrSub::Publisher => self.topics[i].remove_publisher(node_name),
            PubOrSub::Subscriber => self.topics[i].remove_subscriber(node_name),
        };
        proof {
            if left is Err {
                match side {
                    PubOrSub::Publisher => lemma_without_absent_publisher(tv, node_name@),
                    PubOrSub::Subscriber => lemma_without_absent_subscriber(tv, node_name@),
                }
            }
            Self::lemma_changed_at(pre, self.topics@, i as int, self.topics@[i as int]);
            assert(self.topics@[i as int].wf());
        }
        let ghost mid = self.topics@;
        if self.topics[i].is_empty() {
            self.topics.remove(i);
            proof {
                lemma_topic_map_remove(mid, i as int);
                assert(self@ =~= old(self)@.remove(topic_name@));
            }
        }
        Ok(())
    }

    fn topics_with(&self, node_name: &str, side: PubOrSub) -> (r: Vec<String>)
        requires
            self.wf(),
        ensures
            distinct_names(r@),
            name_set(r@) == topics_of(self@, node_name@, side),
    {
        let mut r: Vec<String> = Vec::new();
        let mut i: usize = 0;
        proof {
            assert(name_set(r@) =~= Set::empty());
        }
        while i < self.topics.len()
            invariant
                self.wf(),
                i <= self.topics@.len(),
                distinct_names(r@),
                name_set(r@) == Set::new(
                    |k: Seq<char>|
                        exists|j: int|
                            0 <= j < i && #[trigger] self.topics@[j].spec_name() == k && topics_of(
                                self@,
                                node_name@,
                                side,
                            ).contains(k),
                ),
            decreases self.topics@.len() - i,
        {
            let ghost before = name_set(r@);
            let ghost k = self.topics@[i as int].spec_name();
            proof {
                lemma_topic_map_at(self.topics@, i as int);
            }
            if self.topics[i].has_member(node_name, side) {
                proof {
                    assert(!before.contains(k)) by {
                        if before.contains(k) {
                            let j = choose|j: int|
                                0 <= j < i && #[trigger] self.topics@[j].spec_name() == k && topics_of(
                                    self@,
                                    node_name@,
                                    side,
                                ).contains(k);
                            assert(j != i);
                        }
                    }
                }
                push_name(&mut r, self.topics[i].name().clone());
            }
            proof {
                assert(name_set(r@) =~= Set::new(
                    |k: Seq<char>|
                        exists|j: int|
                            0 <= j < i + 1 && #[trigger] self.topics@[j].spec_name() == k && topics_of(
                                self@,
                                node_name@,
                                side,
                            ).contains(k),
                )) by {
                    assert forall|k2: Seq<char>| name_set(r@).contains(k2) implies exists|j: int|
                        0 <= j < i + 1 && #[trigger] self.topics@[j].spec_name() == k2 && topics_of(
                            self@,
                            node_name@,
                            side,
                        ).contains(k2) by {
                        if k2 == k && !before.contains(k2) {
                            assert(self.topics@[i as int].spec_name() == k2);
                        }
                    }
                }
            }
            i = i + 1;
        }
        proof {
            assert(name_set(r@) =~= topics_of(self@, node_name@, side)) by {
                assert forall|k: Seq<char>| topics_of(self@, node_name@, side).contains(k) implies #[trigger] name_set(
                    r@,
                ).contains(k) by {
                    let j = choose|j: int| 0 <= j < self.topics@.len() && self.topics@[j].spec_name() == k;
                    assert(self.topics@[j].spec_name() == k);
                }
            }
        }
        r
    }
}

/// A store of topics, its operations stated over the store's view of its
/// topics. Every store keeps each topic non-empty, with channels only
/// between a publisher and a subscriber of the topic.
pub trait TopicStorage: Sized {
    /// The topics held, keyed by name.
    spec fn topics_view(&self) -> TopicMap;

    /// The store's own invariant.
    spec fn storage_wf(&self) -> bool;

    /// Adds `node_name` as a subscriber to `topic_name`, creating the topic
    /// with type `msg_type` if it does not exist.
    fn add_subscriber(&mut self, node_name: &str, topic_name: &str, msg_type: &str) -> (r: Result<
        (),
        TopicManagerError,
    >)
        requires
            old(self).storage_wf(),
            topics_sound(old(self).topics_view()),
        ensures
            final(self).storage_wf(),
            topics_sound(final(self).topics_view()),
            type_conflict(old(self).topics_view(), topic_name@, msg_type@) ==> {
                &&& r is Err
                &&& r->Err_0@ == (TopicErrorView::TopicTypeDoesNotMatch {
                    topic_name: topic_name@,
                    requested_type: msg_type@,
                    real_type: old(self).topics_view()[topic_name@].msg_type,
                })
                &&& final(self).topics_view() == old(self).topics_view()
            },
            !type_conflict(old(self).topics_view(), topic_name@, msg_type@) && declared(
                old(self).topics_view(),
                topic_name@,
                msg_type@,
            ).subscribers.contains(node_name@) ==> {
                &&& r is Err
                &&& r->Err_0@ == (TopicErrorView::NodeAlreadyExists {
                    node: node_name@,
                    topic: topic_name@,
                    pubsub: PubOrSub::Subscriber,
                })
                &&& final(self).topics_view() == old(self).topics_view()
            },
            !type_conflict(old(self).topics_view(), topic_name@, msg_type@) && !declared(
                old(self).topics_view(),
                topic_name@,
                msg_type@,
            ).subscribers.contains(node_name@) ==> {
                &&& r is Ok
                &&& final(self).topics_view() == old(self).topics_view().insert(
                    topic_name@,
                    declared(old(self).topics_view(), topic_name@, msg_type@).with_subscriber(node_name@),
                )
            };

    /// Adds `node_name` as a publisher of `topic_name`, creating the topic
    /// with type `msg_type` if it does not exist.
    fn add_publisher(&mut self, node_name: &str, topic_name: &str, msg_type: &str) -> (r: Result<
        (),
        TopicManagerError,
    >)
        requires
            old(self).storage_wf(),
            topics_sound(old(self).topics_view()),
        ensures
            final(self).storage_wf(),
            topics_sound(final(self).topics_view()),
            type_conflict(old(self).topics_view(), topic_name@, msg_type@) ==> {
                &&& r is Err
                &&& r->Err_0@ == (TopicErrorView::TopicTypeDoesNotMatch {
                    topic_name: topic_name@,
                    requested_type: msg_type@,
                    real_type: old(self).topics_view()[topic_name@].msg_type,
                })
                &&& final(self).topics_view() == old(self).topics_view()
            },
            !type_conflict(old(self).topics_view(), topic_name@, msg_type@) && declared(
                old(self).topics_view(),
                topic_name@,
                msg_type@,
            ).publishers.contains(node_name@) ==> {
                &&& r is Err
                &&& r->Err_0@ == (TopicErrorView::NodeAlreadyExists {
                    node: node_name@,
                    topic: topic_name@,
                    pubsub: PubOrSub::Publisher,
                })
                &&& final(self).topics_view() == old(self).topics_view()
            },
            !type_conflict(old(self).topics_view(), topic_name@, msg_type@) && !declared(
                old(self).topics_view(),
                topic_name@,
                msg_type@,
            ).publishers.contains(node_name@) ==> {
                &&& r is Ok
                &&& final(self).topics_view() == old(self).topics_view().insert(
                    topic_name@,
                    declared(old(self).topics_view(), topic_name@, msg_type@).with_publisher(node_name@),
                )
            };

    /// Records the channel `channel_id` from `publisher` to `subscriber` on `topic_name`.
    fn add_channel(
        &mut self,
        publisher: &str,
        subscriber: &str,
        topic_name: &str,
        channel_id: &str,
    ) -> (r: Result<(), TopicManagerError>)
        requires
            old(self).storage_wf(),
            topics_sound(old(self).topics_view()),
        ensures
            final(self).storage_wf(),
            topics_sound(final(self).topics_view()),
            r is Err ==> final(self).topics_view() == old(self).topics_view(),
            !old(self).topics_view().contains_key(topic_name@) ==> {
                &&& r is Err
                &&& r->Err_0@ == TopicErrorView::TopicDoesNotExist(topic_name@)
            },
            old(self).topics_view().contains_key(topic_name@) && !old(self).topics_view()[topic_name@].publishers.contains(publisher@)
                ==> {
                &&& r is Err
                &&& r->Err_0@ == (TopicErrorView::NotPublishing {
                    publisher: publisher@,
                    topic_name: topic_name@,
                })
            },
            old(self).topics_view().contains_key(topic_name@) && old(self).topics_view()[topic_name@].publishers.contains(publisher@)
                && !old(self).topics_view()[topic_name@].subscribers.contains(subscriber@) ==> {
                &&& r is Err
                &&& r->Err_0@ == (TopicErrorView::NotSubscribed {
                    subscriber: subscriber@,
                    topic_name: topic_name@,
                })
            },
            old(self).topics_view().contains_key(topic_name@) && old(self).topics_view()[topic_name@].publishers.contains(publisher@)
                && old(self).topics_view()[topic_name@].subscribers.contains(subscriber@)
                && old(self).topics_view()[topic_name@].channels.contains_key((publisher@, subscriber@)) ==> {
                &&& r is Err
                &&& r->Err_0@ == (TopicErrorView::ChannelAlreadyExists {
                    publisher: publisher@,
                    subscriber: subscriber@,
                    topic_name: topic_name@,
                })
            },
            old(self).topics_view().contains_key(topic_name@) && old(self).topics_view()[topic_name@].publishers.contains(publisher@)
                && old(self).topics_view()[topic_name@].subscribers.contains(subscriber@)
                && !old(self).topics_view()[topic_name@].channels.contains_key((publisher@, subscriber@)) ==> {
                &&& r is Ok
                &&& final(self).topics_view() == old(self).topics_view().insert(
                    topic_name@,
                    old(self).topics_view()[topic_name@].with_channel(publisher@, subscriber@, channel_id@),
                )
            };

    /// Takes `node_name` out of the subscribers of `topic_name`, with the
    /// channels to it; the topic goes when nobody is left on it.
    fn remove_subscriber(&mut self, node_name: &str, topic_name: &str) -> (r: Result<
        (),
        TopicManagerError,
    >)
        requires
            old(self).storage_wf(),
            topics_sound(old(self).topics_view()),
        ensures
            final(self).storage_wf(),
            topics_sound(final(self).topics_view()),
            !old(self).topics_view().contains_key(topic_name@) ==> {
                &&& r is Err
                &&& r->Err_0@ == TopicErrorView::TopicDoesNotExist(topic_name@)
                &&& final(self).topics_view() == old(self).topics_view()
            },
            old(self).topics_view().contains_key(topic_name@) ==> {
                &&& r is Ok
                &&& final(self).topics_view() == settle(
                    old(self).topics_view(),
                    topic_name@,
                    old(self).topics_view()[topic_name@].without_subscriber(node_name@),
                )
            };

    /// Takes `node_name` out of the publishers of `topic_name`, with its
    /// channels; the topic goes when nobody is left on it.
    fn remove_publisher(&mut self, node_name: &str, topic_name: &str) -> (r: Result<
        (),
        TopicManagerError,
    >)
        requires
            old(self).storage_wf(),
            topics_sound(old(self).topics_view()),
        ensures
            final(self).storage_wf(),
            topics_sound(final(self).topics_view()),
            !old(self).topics_view().contains_key(topic_name@) ==> {
                &&& r is Err
                &&& r->Err_0@ == TopicErrorView::TopicDoesNotExist(topic_name@)
                &&& final(self).topics_view() == old(self).topics_view()
            },
            old(self).topics_view().contains_key(topic_name@) ==> {
                &&& r is Ok
                &&& final(self).topics_view() == settle(
                    old(self).topics_view(),
                    topic_name@,
                    old(self).topics_view()[topic_name@].without_publisher(node_name@),
                )
            };

    /// The channel from `publisher` to `subscriber` on `topic_name`.
    fn get_channel(&self, publisher: &str, subscriber: &str, topic_name: &str) -> (r: Result<
        String,
        TopicManagerError,
    >)
        requires
            self.storage_wf(),
            topics_sound(self.topics_view()),
        ensures
            !self.topics_view().contains_key(topic_name@) ==> {
                &&& r is Err
                &&& r->Err_0@ == TopicErrorView::TopicDoesNotExist(topic_name@)
            },
            self.topics_view().contains_key(topic_name@) && !self.topics_view()[topic_name@].channels.contains_key(
                (publisher@, subscriber@),
            ) ==> {
                &&& r is Err
                &&& r->Err_0@ == (TopicErrorView::ChannelDoesNotExist {
                    publisher: publisher@,
                    subscriber: subscriber@,
                    topic_name: topic_name@,
                })
            },
            self.topics_view().contains_key(topic_name@) && self.topics_view()[topic_name@].channels.contains_key(
                (publisher@, subscriber@),
            ) ==> {
                &&& r is Ok
                &&& r->Ok_0@ == self.topics_view()[topic_name@].channels[(publisher@, subscriber@)]
            };

    /// The subscribers of `topic_name`, each once.
    fn get_subscribers(&self, topic_name: &str) -> (r: Result<Vec<String>, TopicManagerError>)
        requires
            self.storage_wf(),
            topics_sound(self.topics_view()),
        ensures
            !self.topics_view().contains_key(topic_name@) ==> {
                &&& r is Err
                &&& r->Err_0@ == TopicErrorView::TopicDoesNotExist(topic_name@)
            },
            self.topics_view().contains_key(topic_name@) ==> {
                &&& r is Ok
                &&& distinct_names(r->Ok_0@)
                &&& name_set(r->Ok_0@) == self.topics_view()[topic_name@].subscribers
            };

    /// The publishers of `topic_name`, each once.
    fn get_publishers(&self, topic_name: &str) -> (r: Result<Vec<String>, TopicManagerError>)
        requires
            self.storage_wf(),
            topics_sound(self.topics_view()),
        ensures
            !self.topics_view().contains_key(topic_name@) ==> {
                &&& r is Err
                &&& r->Err_0@ == TopicErrorView::TopicDoesNotExist(topic_name@)
            },
            self.topics_view().contains_key(topic_name@) ==> {
                &&& r is Ok
                &&& distinct_names(r->Ok_0@)
                &&& name_set(r->Ok_0@) == self.topics_view()[topic_name@].publishers
            };

    /// The topics `node_name` subscribes to, each once.
    fn topics_subscribed_to(&self, node_name: &str) -> (r: Result<Vec<String>, TopicManagerError>)
        requires
            self.storage_wf(),
            topics_sound(self.topics_view()),
        ensures
            r is Ok,
            distinct_names(r->Ok_0@),
            name_set(r->Ok_0@) == topics_of(self.topics_view(), node_name@, PubOrSub::Subscriber);

    /// The topics `node_name` publishes on, each once.
    fn topics_publishing_to(&self, node_name: &str) -> (r: Result<Vec<String>, TopicManagerError>)
        requires
            self.storage_wf(),
            topics_sound(self.topics_view()),
        ensures
            r is Ok,
            distinct_names(r->Ok_0@),
            name_set(r->Ok_0@) == topics_of(self.topics_view(), node_name@, PubOrSub::Publisher);

    /// Takes `node_name` out of every topic, in both roles and with all its
    /// channels; topics left empty are gone.
    fn remove_node(&mut self, node_name: &str)
        requires
            old(self).storage_wf(),
            topics_sound(old(self).topics_view()),
        ensures
            final(self).storage_wf(),
            topics_sound(final(self).topics_view()),
            final(self).topics_view() == without_node(old(self).topics_view(), node_name@);
}

impl TopicStorage for MemoryTopicStorage {
    open spec fn topics_view(&self) -> TopicMap {
        self@
    }

    open spec fn storage_wf(&self) -> bool {
        self.wf()
    }

    fn add_subscriber(&mut self, node_name: &str, topic_name: &str, msg_type: &str) -> (r: Result<
        (),
        TopicManagerError,
    >)
    {
        let i = match self.add_topic_if_missing(topic_name, msg_type) {
            Ok(i) => i,
            Err(e) => {
                return Err(e);
            },
        };
        let ghost pre = self.topics@;
        let r = self.topics[i].add_subscriber(node_name);
        proof {
            Self::lemma_changed_at(pre, self.topics@, i as int, self.topics@[i as int]);
            assert(self@ =~= old(self)@.insert(topic_name@, self.topics@[i as int]@));
            if r is Err {
                assert(self@ =~= old(self)@);
            } else {
                let tv = self.topics@[i as int]@;
                assert(self.topics@[i as int].wf());
                assert(tv.subscribers.contains(node_name@));
                assert(!tv.is_empty());
                assert(topics_sound(self@));
            }
        }
        r
    }

    fn add_publisher(&mut self, node_name: &str, topic_name: &str, msg_type: &str) -> (r: Result<
        (),
        TopicManagerError,
    >)
    {
        let i = match self.add_topic_if_missing(topic_name, msg_type) {
            Ok(i) => i,
            Err(e) => {
                return Err(e);
            },
        };
        let ghost pre = self.topics@;
        let r = self.topics[i].add_publisher(node_name);
        proof {
            Self::lemma_changed_at(pre, self.topics@, i as int, self.topics@[i as int]);
            assert(self@ =~= old(self)@.insert(topic_name@, self.topics@[i as int]@));
            if r is Err {
                assert(self@ =~= old(self)@);
            } else {
                let tv = self.topics@[i as int]@;
                assert(self.topics@[i as int].wf());
                assert(tv.publishers.contains(node_name@));
                assert(!tv.is_empty());
                assert(topics_sound(self@));
            }
        }
        r
    }

    fn add_channel(
        &mut self,
        publisher: &str,
        subscriber: &str,
        topic_name: &str,
        channel_id: &str,
    ) -> (r: Result<(), TopicManagerError>)
    {
        let i = match self.find(topic_name) {
            Some(i) => i,
            None => {
                return Err(TopicManagerError::TopicDoesNotExist(topic_name.to_owned()));
            },
        };
        let ghost pre = self.topics@;
        proof {
            assert(pre[i as int].wf());
        }
        let r = self.topics[i].add_channel(publisher, subscriber, channel_id);
        proof {
            Self::lemma_changed_at(pre, self.topics@, i as int, self.topics@[i as int]);
            assert(self@ =~= old(self)@.insert(topic_name@, self.topics@[i as int]@));
            assert(self.topics@[i as int].wf());
            if r is Err {
                assert(self@ =~= old(self)@);
            }
        }
        r
    }

    fn remove_subscriber(&mut self, node_name: &str, topic_name: &str) -> (r: Result<
        (),
        TopicManagerError,
    >)
    {
        self.remove_member(node_name, topic_name, PubOrSub::Subscriber)
    }

    fn remove_publisher(&mut self, node_name: &str, topic_name: &str) -> (r: Result<
        (),
        TopicManagerError,
    >)
    {
        self.remove_member(node_name, topic_name, PubOrSub::Publisher)
    }

    fn get_channel(&self, publisher: &str, subscriber: &str, topic_name: &str) -> (r: Result<
        String,
        TopicManagerError,
    >)
    {
        let i = match self.find(topic_name) {
            Some(i) => i,
            None => {
                return Err(TopicManagerError::TopicDoesNotExist(topic_name.to_owned()));
            },
        };
        proof {
            assert(self.topics@[i as int].wf());
        }
        match self.topics[i].get_channel(publisher, subscriber) {
            Some(c) => Ok(c),
            None => Err(
                TopicManagerError::ChannelDoesNotExist {
                    publisher: publisher.to_owned(),
                    subscriber: subscriber.to_owned(),
                    topic_name: topic_name.to_owned(),
                },
            ),
        }
    }

    fn get_subscribers(&self, topic_name: &str) -> (r: Result<Vec<String>, TopicManagerError>)
    {
        match self.find(topic_name) {
            Some(i) => {
                proof {
                    assert(self.topics@[i as int].wf());
                }
                Ok(self.topics[i].subscribers())
            },
            None => Err(TopicManagerError::TopicDoesNotExist(topic_name.to_owned())),
        }
    }

    fn get_publishers(&self, topic_name: &str) -> (r: Result<Vec<String>, TopicManagerError>)
    {
        match self.find(topic_name) {
            Some(i) => {
                proof {
                    assert(self.topics@[i as int].wf());
                }
                Ok(self.topics[i].publishers())
            },
            None => Err(TopicManagerError::TopicDoesNotExist(topic_name.to_owned())),
        }
    }

    fn topics_subscribed_to(&self, node_name: &str) -> (r: Result<Vec<String>, TopicManagerError>)
    {
        Ok(self.topics_with(node_name, PubOrSub::Subscriber))
    }

    fn topics_publishing_to(&self, node_name: &str) -> (r: Result<Vec<String>, TopicManagerError>)
    {
        Ok(self.topics_with(node_name, PubOrSub::Publisher))
    }

    fn remove_node(&mut self, node_name: &str)
    {
        let ghost orig = self.topics@;
        let ghost n = node_name@;
        let mut i: usize = 0;
        while i < self.topics.len()
            invariant
                self.topics@.len() == orig.len(),
                n == node_name@,
                i <= orig.len(),
                distinct_topics(orig),
                forall|j: int| 0 <= j < orig.len() ==> #[trigger] orig[j].wf(),
                forall|j: int| 0 <= j < orig.len() ==> #[trigger] self.topics@[j].wf(),
                forall|j: int|
                    0 <= j < orig.len() ==> #[trigger] self.topics@[j].spec_name()
                        == orig[j].spec_name(),
                forall|j: int| 0 <= j < i ==> #[trigger] self.topics@[j]@ == orig[j]@.without_node(n),
                forall|j: int| i <= j < orig.len() ==> #[trigger] self.topics@[j] == orig[j],
            decreases orig.len() - i,
        {
            let ghost pre = self.topics@;
            proof {
                assert(pre[i as int] == orig[i as int]);
            }
            self.topics[i].remove_node(node_name);
            proof {
                assert forall|j: int| 0 <= j < i + 1 implies #[trigger] self.topics@[j]@
                    == orig[j]@.without_node(n) by {
                    if j < i {
                        assert(self.topics@[j] == pre[j]);
                    }
                }
            }
            i = i + 1;
        }
        let ghost stripped = Map::new(
            |k: Seq<char>| topic_map(orig).contains_key(k),
            |k: Seq<char>| topic_map(orig)[k].without_node(n),
        );
        proof {
            assert(distinct_topics(self.topics@)) by {
                assert forall|a: int, b: int|
                    0 <= a < self.topics@.len() && 0 <= b < self.topics@.len() && a != b implies self.topics@[a].spec_name()
                    != self.topics@[b].spec_name() by {
                    assert(orig[a].spec_name() != orig[b].spec_name());
                }
            }
            assert forall|k: Seq<char>| #[trigger] stripped.contains_key(k) implies self@.contains_key(k)
                && self@[k] == stripped[k] by {
                let j = choose|j: int| 0 <= j < orig.len() && orig[j].spec_name() == k;
                lemma_topic_map_at(orig, j);
                lemma_topic_map_at(self.topics@, j);
            }
            assert forall|k: Seq<char>| #[trigger] self@.contains_key(k) implies stripped.contains_key(k) by {
                let j = choose|j: int| 0 <= j < self.topics@.len() && self.topics@[j].spec_name() == k;
                lemma_topic_map_at(orig, j);
            }
            assert(self@ =~= stripped);
            assert(without_node(old(self)@, n) =~= Map::new(
                |k: Seq<char>| self@.contains_key(k) && !self@[k].is_empty(),
                |k: Seq<char>| self@[k],
            ));
        }
        let mut i: usize = 0;
        while i < self.topics.len()
            invariant
                i <= self.topics@.len(),
                self.layout_ok(),
                forall|j: int| 0 <= j < i ==> !(#[trigger] self.topics@[j]@).is_empty(),
                without_node(old(self)@, n) == Map::new(
                    |k: Seq<char>| self@.contains_key(k) && !self@[k].is_empty(),
                    |k: Seq<char>| self@[k],
                ),
            decreases self.topics@.len() - i,
        {
            if self.topics[i].is_empty() {
                let ghost pre = self.topics@;
                self.topics.remove(i);
                proof {
                    lemma_topic_map_remove(pre, i as int);
                    lemma_topic_map_at(pre, i as int);
                    assert forall|j: int| 0 <= j < self.topics@.len() implies #[trigger] self.topics@[j].wf() by {
                        let j0 = if j < i { j } else { j + 1 };
                        assert(self.topics@[j] == pre[j0]);
                    }
                    assert(Map::new(
                        |k: Seq<char>| self@.contains_key(k) && !self@[k].is_empty(),
                        |k: Seq<char>| self@[k],
                    ) =~= Map::new(
                        |k: Seq<char>| topic_map(pre).contains_key(k) && !topic_map(pre)[k].is_empty(),
                        |k: Seq<char>| topic_map(pre)[k],
                    ));
                }
            } else {
                i = i + 1;
            }
        }
        proof {
            assert forall|k: Seq<char>| #[trigger] self@.contains_key(k) implies !self@[k].is_empty() by {
                let j = choose|j: int| 0 <= j < self.topics@.len() && self.topics@[j].spec_name() == k;
                lemma_topic_map_at(self.topics@, j);
            }
            assert(self@ =~= without_node(old(self)@, n));
            assert forall|k: Seq<char>| #[trigger] self@.contains_key(k) implies self@[k].channels_matched() by {
                let j = choose|j: int| 0 <= j < self.topics@.len() && self.topics@[j].spec_name() == k;
                lemma_topic_map_at(self.topics@, j);
                assert(self.topics@[j].wf());
            }
        }
    }

}


} // verus!
