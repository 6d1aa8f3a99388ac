//! The topic registry over a store, with the matcher that opens channels.

use vstd::prelude::*;

use crate::broker::{
    channels_from, channels_to, joined_as_publisher, joined_as_subscriber, members_registered,
    BrokerView,
};
use crate::channels::ChannelKey;
use crate::error::{PubOrSub, TopicErrorView, TopicManagerError};
use crate::names::{distinct_names, lemma_name_set_take_step, name_set};
use crate::nodes::NodeManager;
use crate::topic::TopicView;
use crate::topics::{
    declared, settle, topics_of, topics_sound, type_conflict, without_node, TopicMap, TopicStorage,
};

verus! {

/// The topic registry with its matcher: when a node joins a topic, it opens
/// a channel for every new (publisher, subscriber) pair, carrying the
/// subscriber's own address.
#[derive(Debug)]
pub struct TopicManager<S: TopicStorage> {
    storage: S,
}

impl<S: TopicStorage> View for TopicManager<S> {
    type V = TopicMap;

    closed spec fn view(&self) -> TopicMap {
        self.storage.topics_view()
    }
}

impl<S: TopicStorage> TopicManager<S> {
    pub closed spec fn storage_ok(&self) -> bool {
        self.storage.storage_wf()
    }

    /// The registry is well formed: no topic is empty, and channels only
    /// join publishers to subscribers of their topic.
    pub open spec fn wf(&self) -> bool {
        &&& self.storage_ok()
        &&& topics_sound(self@)
    }

    /// A registry over the topics that `storage` holds.
    pub fn new(storage: S) -> (r: TopicManager<S>)
        requires
            storage.storage_wf(),
            topics_sound(storage.topics_view()),
        ensures
            r.wf(),
            r@ == storage.topics_view(),
    {
        TopicManager { storage }
    }

    /// Makes `node_name`, a node of `nodes`, a publisher of `topic_name`, creating the topic
    /// with type `msg_type` if it does not exist, and opens a channel from
    /// the node to every subscriber of the topic.
    pub fn add_publisher(
        &mut self,
        nodes: &NodeManager,
        node_name: &str, topic_name: &str,
        msg_type: &str,
    ) -> (r: Result<
        (),
        TopicManagerError,
    >)
        requires
            old(self).wf(),
            nodes.wf(),
            nodes@.contains_key(node_name@),
            members_registered(BrokerView { nodes: nodes@, topics: old(self)@ }),
        ensures
            final(self).wf(),
            members_registered(BrokerView { nodes: nodes@, topics: final(self)@ }),
            r is Err ==> final(self)@ == old(self)@,
            type_conflict(
                old(self)@,
                topic_name@,
                msg_type@,
            ) ==> {
                &&& r is Err
                &&& r->Err_0@ == (TopicErrorView::TopicTypeDoesNotMatch {
                        topic_name: topic_name@,
                        requested_type: msg_type@,
                        real_type: old(self)@[topic_name@].msg_type,
                })
            },
            !type_conflict(
                old(self)@,
                topic_name@,
                msg_type@,
            ) && declared(old(self)@, topic_name@, msg_type@).publishers.contains(node_name@)
                ==> {
                &&& r is Err
                &&& r->Err_0@ == (TopicErrorView::NodeAlreadyExists {
                        node: node_name@,
                        topic: topic_name@,
                        pubsub: PubOrSub::Publisher,
                })
            },
            !type_conflict(
                old(self)@,
                topic_name@,
                msg_type@,
            ) && !declared(old(self)@, topic_name@, msg_type@).publishers.contains(node_name@)
                ==> {
                &&& r is Ok
                &&& final(self)@ == joined_as_publisher(
                    BrokerView { nodes: nodes@, topics: old(self)@ },
                    node_name@,
                    topic_name@,
                    msg_type@,
                )
            },
    {
        match self.storage.add_publisher(node_name, topic_name, msg_type) {
            Ok(()) => {},
            Err(e) => {
                return Err(e);
            },
        }
        let ghost n = node_name@;
        let ghost t = topic_name@;
        let ghost nv = nodes@;
        let ghost mid = self@;
        let ghost t0 = mid[t];
        proof {
            assert(t0 == declared(old(self)@, t, msg_type@).with_publisher(n));
            assert forall|x: Seq<char>| #[trigger] t0.subscribers.contains(x) implies nv.contains_key(x) by {
                let bv = BrokerView { nodes: nodes@, topics: old(self)@ };
                assert(bv.topics.contains_key(t));
                assert(bv.topics[t].subscribers.contains(x));
            }
            assert forall|k: ChannelKey| #[trigger] t0.channels.contains_key(k) implies k.0 != n by {
                if old(self)@.contains_key(t) {
                    assert(old(self)@[t].channels_matched());
                }
            }
        }
        let subs = match self.storage.get_subscribers(topic_name) {
            Ok(v) => v,
            Err(e) => {
                return Err(e);
            },
        };
        let mut i: usize = 0;
        proof {
            assert(name_set(subs@.take(0)) =~= Set::empty());
            assert(t0.channels.union_prefer_right(channels_from(n, Set::empty(), nv)) =~= t0.channels);
            assert(TopicView { channels: t0.channels, ..t0 } == t0);
            assert(mid.insert(t, t0) =~= mid);
        }
        while i < subs.len()
            invariant
                n == node_name@,
                t == topic_name@,
                i <= subs@.len(),
                nodes.wf(),
                self.wf(),
                nv == nodes@,
                distinct_names(subs@),
                name_set(subs@) == t0.subscribers,
                t0.publishers.contains(n),
                forall|k: ChannelKey| #[trigger] t0.channels.contains_key(k) ==> k.0 != n,
                forall|x: Seq<char>| #[trigger] t0.subscribers.contains(x) ==> nv.contains_key(x),
                self@ == mid.insert(
                    t,
                    TopicView {
                        channels: t0.channels.union_prefer_right(
                            channels_from(n, name_set(subs@.take(i as int)), nv),
                        ),
                        ..t0
                    },
                ),
            decreases subs@.len() - i,
        {
            let ghost sname = subs@[i as int]@;
            proof {
                assert(name_set(subs@).contains(sname)) by {
                    assert(subs@[i as int]@ == sname);
                }
                lemma_name_set_take_step(subs@, i as int);
                assert(!name_set(subs@.take(i as int)).contains(sname)) by {
                    if name_set(subs@.take(i as int)).contains(sname) {
                        let j = choose|j: int| 0 <= j < i && subs@.take(i as int)[j]@ == sname;
                        assert(subs@[j]@ == sname);
                    }
                }
            }
            let address = nodes.address_of(subs[i].as_str());
            let ghost before = self@;
            let _ = self.storage.add_channel(node_name, subs[i].as_str(), topic_name, address.as_str());
            proof {
                assert(self@ == before.insert(t, before[t].with_channel(n, sname, nv[sname].uds)));
                assert(t0.channels.union_prefer_right(
                    channels_from(n, name_set(subs@.take(i + 1)), nv),
                ) =~= t0.channels.union_prefer_right(
                    channels_from(n, name_set(subs@.take(i as int)), nv),
                ).insert((n, sname), nv[sname].uds));
                assert(self@ =~= mid.insert(
                    t,
                    TopicView {
                        channels: t0.channels.union_prefer_right(
                            channels_from(n, name_set(subs@.take(i + 1)), nv),
                        ),
                        ..t0
                    },
                ));
            }
            i = i + 1;
        }
        proof {
            assert(subs@.take(subs@.len() as int) =~= subs@);
            assert(self@ =~= joined_as_publisher(BrokerView { nodes: nv, topics: old(self)@ }, n, t, msg_type@));
            assert(members_registered(BrokerView { nodes: nv, topics: self@ })) by {
                assert forall|tt: Seq<char>, x: Seq<char>|
                    self@.contains_key(tt) && (self@[tt].publishers.contains(x)
                        || self@[tt].subscribers.contains(x)) implies nv.contains_key(x) by {
                    if tt != t {
                        assert(old(self)@.contains_key(tt));
                        assert(old(self)@[tt] == self@[tt]);
                    } else if x != n && old(self)@.contains_key(t) {
                        assert(old(self)@[t].publishers.contains(x)
                            || old(self)@[t].subscribers.contains(x));
                    }
                }
            }
        }
        Ok(())
    }

    /// Makes `node_name`, a node of `nodes`, a subscriber of `topic_name`, creating the
    /// topic with type `msg_type` if it does not exist, and opens a channel
    /// from every publisher of the topic to the node, at the node's address.
    pub fn add_subscriber(
        &mut self,
        nodes: &NodeManager,
        node_name: &str, topic_name: &str,
        msg_type: &str,
    ) -> (r: Result<
        (),
        TopicManagerError,
    >)
        requires
            old(self).wf(),
            nodes.wf(),
            nodes@.contains_key(node_name@),
            members_registered(BrokerView { nodes: nodes@, topics: old(self)@ }),
        ensures
            final(self).wf(),
            members_registered(BrokerView { nodes: nodes@, topics: final(self)@ }),
            r is Err ==> final(self)@ == old(self)@,
            type_conflict(
                old(self)@,
                topic_name@,
                msg_type@,
            ) ==> {
                &&& r is Err
                &&& r->Err_0@ == (TopicErrorView::TopicTypeDoesNotMatch {
                        topic_name: topic_name@,
                        requested_type: msg_type@,
                        real_type: old(self)@[topic_name@].msg_type,
                })
            },
            !type_conflict(
                old(self)@,
                topic_name@,
                msg_type@,
            ) && declared(old(self)@, topic_name@, msg_type@).subscribers.contains(node_name@)
                ==> {
                &&& r is Err
                &&& r->Err_0@ == (TopicErrorView::NodeAlreadyExists {
                        node: node_name@,
                        topic: topic_name@,
                        pubsub: PubOrSub::Subscriber,
                })
            },
            !type_conflict(
                old(self)@,
                topic_name@,
                msg_type@,
            ) && !declared(old(self)@, topic_name@, msg_type@).subscribers.contains(node_name@)
                ==> {
                &&& r is Ok
                &&& final(self)@ == joined_as_subscriber(
                    BrokerView { nodes: nodes@, topics: old(self)@ },
                    node_name@,
                    topic_name@,
                    msg_type@,
                )
            },
    {
        let address = nodes.address_of(node_name);
        match self.storage.add_subscriber(node_name, topic_name, msg_type) {
            Ok(()) => {},
            Err(e) => {
                return Err(e);
            },
        }
        let ghost n = node_name@;
        let ghost t = topic_name@;
        let ghost nv = nodes@;
        let ghost mid = self@;
        let ghost t0 = mid[t];
        proof {
            assert(t0 == declared(old(self)@, t, msg_type@).with_subscriber(n));
            assert forall|k: ChannelKey| #[trigger] t0.channels.contains_key(k) implies k.1 != n by {
                if old(self)@.contains_key(t) {
                    assert(old(self)@[t].channels_matched());
                }
            }
        }
        let pubs = match self.storage.get_publishers(topic_name) {
            Ok(v) => v,
            Err(e) => {
                return Err(e);
            },
        };
        let mut i: usize = 0;
        proof {
            assert(name_set(pubs@.take(0)) =~= Set::empty());
            assert(t0.channels.union_prefer_right(channels_to(n, Set::empty(), nv)) =~= t0.channels);
            assert(TopicView { channels: t0.channels, ..t0 } == t0);
            assert(mid.insert(t, t0) =~= mid);
        }
        while i < pubs.len()
            invariant
                n == node_name@,
                t == topic_name@,
                address@ == nv[n].uds,
                i <= pubs@.len(),
                nodes.wf(),
                self.wf(),
                nv == nodes@,
                distinct_names(pubs@),
                name_set(pubs@) == t0.publishers,
                t0.subscribers.contains(n),
                forall|k: ChannelKey| #[trigger] t0.channels.contains_key(k) ==> k.1 != n,
                self@ == mid.insert(
                    t,
                    TopicView {
                        channels: t0.channels.union_prefer_right(
                            channels_to(n, name_set(pubs@.take(i as int)), nv),
                        ),
                        ..t0
                    },
                ),
            decreases pubs@.len() - i,
        {
            let ghost pname = pubs@[i as int]@;
            proof {
                assert(name_set(pubs@).contains(pname)) by {
                    assert(pubs@[i as int]@ == pname);
                }
                lemma_name_set_take_step(pubs@, i as int);
                assert(!name_set(pubs@.take(i as int)).contains(pname)) by {
                    if name_set(pubs@.take(i as int)).contains(pname) {
                        let j = choose|j: int| 0 <= j < i && pubs@.take(i as int)[j]@ == pname;
                        assert(pubs@[j]@ == pname);
                    }
                }
            }
            let ghost before = self@;
            let _ = self.storage.add_channel(pubs[i].as_str(), node_name, topic_name, address.as_str());
            proof {
                assert(self@ == before.insert(t, before[t].with_channel(pname, n, nv[n].uds)));
                assert(t0.channels.union_prefer_right(
                    channels_to(n, name_set(pubs@.take(i + 1)), nv),
                ) =~= t0.channels.union_prefer_right(
                    channels_to(n, name_set(pubs@.take(i as int)), nv),
                ).insert((pname, n), nv[n].uds));
                assert(self@ =~= mid.insert(
                    t,
                    TopicView {
                        channels: t0.channels.union_prefer_right(
                            channels_to(n, name_set(pubs@.take(i + 1)), nv),
                        ),
                        ..t0
                    },
                ));
            }
            i = i + 1;
        }
        proof {
            assert(pubs@.take(pubs@.len() as int) =~= pubs@);
            assert(self@ =~= joined_as_subscriber(BrokerView { nodes: nv, topics: old(self)@ }, n, t, msg_type@));
            assert(members_registered(BrokerView { nodes: nv, topics: self@ })) by {
                assert forall|tt: Seq<char>, x: Seq<char>|
                    self@.contains_key(tt) && (self@[tt].publishers.contains(x)
                        || self@[tt].subscribers.contains(x)) implies nv.contains_key(x) by {
                    if tt != t {
                        assert(old(self)@.contains_key(tt));
                        assert(old(self)@[tt] == self@[tt]);
                    } else if x != n && old(self)@.contains_key(t) {
                        assert(old(self)@[t].publishers.contains(x)
                            || old(self)@[t].subscribers.contains(x));
                    }
                }
            }
        }
        Ok(())
    }


    /// Takes `node_name` out of the publishers of `topic_name`, with its
    /// channels; the topic goes when nobody is left on it.
    pub fn remove_publisher(&mut self, node_name: &str, topic_name: &str) -> (r: Result<
        (),
        TopicManagerError,
    >)
        requires
            old(self).wf(),
        ensures
            final(self).wf(),
            !old(self)@.contains_key(topic_name@) ==> {
                &&& r is Err
                &&& r->Err_0@ == TopicErrorView::TopicDoesNotExist(topic_name@)
                &&& final(self)@ == old(self)@
            },
            old(self)@.contains_key(topic_name@) ==> {
                &&& r is Ok
                &&& final(self)@ == settle(
                    old(self)@,
                    topic_name@,
                    old(self)@[topic_name@].without_publisher(node_name@),
                )
            },
    {
        self.storage.remove_publisher(node_name, topic_name)
    }

    /// Takes `node_name` out of the subscribers of `topic_name`, with the
    /// channels to it; the topic goes when nobody is left on it.
    pub fn remove_subscriber(&mut self, node_name: &str, topic_name: &str) -> (r: Result<
        (),
        TopicManagerError,
    >)
        requires
            old(self).wf(),
        ensures
            final(self).wf(),
            !old(self)@.contains_key(topic_name@) ==> {
                &&& r is Err
                &&& r->Err_0@ == TopicErrorView::TopicDoesNotExist(topic_name@)
                &&& final(self)@ == old(self)@
            },
            old(self)@.contains_key(topic_name@) ==> {
                &&& r is Ok
                &&& final(self)@ == settle(
                    old(self)@,
                    topic_name@,
                    old(self)@[topic_name@].without_subscriber(node_name@),
                )
            },
    {
        self.storage.remove_subscriber(node_name, topic_name)
    }

    /// Takes `node_name` out of every topic in both roles, with its
    /// channels; topics left empty are gone.
    pub fn remove_node(&mut self, node_name: &str)
        requires
            old(self).wf(),
        ensures
            final(self).wf(),
            final(self)@ == without_node(old(self)@, node_name@),
    {
        self.storage.remove_node(node_name)
    }

    /// The channel from `publisher` to `subscriber` on `topic_name`.
    pub fn get_channel(&self, publisher: &str, subscriber: &str, topic_name: &str) -> (r: Result<
        String,
        TopicManagerError,
    >)
        requires
            self.wf(),
        ensures
            !self@.contains_key(topic_name@) ==> {
                &&& r is Err
                &&& r->Err_0@ == TopicErrorView::TopicDoesNotExist(topic_name@)
            },
            self@.contains_key(topic_name@) && !self@[topic_name@].channels.contains_key(
                (publisher@, subscriber@),
            ) ==> {
                &&& r is Err
                &&& r->Err_0@ == (TopicErrorView::ChannelDoesNotExist {
                    publisher: publisher@,
                    subscriber: subscriber@,
                    topic_name: topic_name@,
                })
            },
            self@.contains_key(topic_name@) && self@[topic_name@].channels.contains_key(
                (publisher@, subscriber@),
            ) ==> {
                &&& r is Ok
                &&& r->Ok_0@ == self@[topic_name@].channels[(publisher@, subscriber@)]
            },
    {
        self.storage.get_channel(publisher, subscriber, topic_name)
    }

    /// The publishers of `topic_name`, each once.
    pub fn get_publishers(&self, topic_name: &str) -> (r: Result<Vec<String>, TopicManagerError>)
        requires
            self.wf(),
        ensures
            !self@.contains_key(topic_name@) ==> {
                &&& r is Err
                &&& r->Err_0@ == TopicErrorView::TopicDoesNotExist(topic_name@)
            },
            self@.contains_key(topic_name@) ==> {
                &&& r is Ok
                &&& distinct_names(r->Ok_0@)
                &&& name_set(r->Ok_0@) == self@[topic_name@].publishers
            },
    {
        self.storage.get_publishers(topic_name)
    }

    /// The subscribers of `topic_name`, each once.
    pub fn get_subscribers(&self, topic_name: &str) -> (r: Result<Vec<String>, TopicManagerError>)
        requires
            self.wf(),
        ensures
            !self@.contains_key(topic_name@) ==> {
                &&& r is Err
                &&& r->Err_0@ == TopicErrorView::TopicDoesNotExist(topic_name@)
            },
            self@.contains_key(topic_name@) ==> {
                &&& r is Ok
                &&& distinct_names(r->Ok_0@)
                &&& name_set(r->Ok_0@) == self@[topic_name@].subscribers
            },
    {
        self.storage.get_subscribers(topic_name)
    }

    /// The topics `node_name` holds role `side` on, each once.
    pub fn topics_of_node(&self, node_name: &str, side: PubOrSub) -> (r: Vec<String>)
        requires
            self.wf(),
        ensures
            distinct_names(r@),
            name_set(r@) == topics_of(self@, node_name@, side),
    {
        let found = match side {
            PubOrSub::Publisher => self.storage.topics_publishing_to(node_name),
            PubOrSub::Subscriber => self.storage.topics_subscribed_to(node_name),
        };
        match found {
            Ok(v) => v,
            Err(_) => Vec::new(),
        }
    }
}

} // verus!
