//! The broker: both registries, changed together under one owner.

use vstd::prelude::*;

use crate::channels::ChannelKey;
use crate::error::{
    BrokerError, BrokerErrorView, NodeErrorView, NodeManagerError, PubOrSub, TopicErrorView,
    TopicManagerError,
};
use crate::names::{distinct_names, lemma_name_set_take_step, name_set};
use crate::nodes::{
    address_taken, addresses_unique, distinct_nodes, names_nonempty, no_address_in, node_map,
    stale_names, with_heartbeat,
    Node, NodeManager, NodeMap, NodeView,
};
use crate::topic::TopicView;
use crate::topic_manager::TopicManager;
use crate::topics::{
    declared, settle, topics_of, topics_sound, type_conflict, without_node, MemoryTopicStorage,
    TopicMap,
};
use crate::uds::{is_socket_path_in, UdsGenerator};

verus! {

/// The whole coordination state: registered nodes and topics.
pub struct BrokerView {
    pub nodes: NodeMap,
    pub topics: TopicMap,
}

/// Every publisher and subscriber of every topic is a registered node.
pub open spec fn members_registered(s: BrokerView) -> bool {
    forall|t: Seq<char>, n: Seq<char>|
        #![trigger s.topics[t].publishers.contains(n)]
        #![trigger s.topics[t].subscribers.contains(n)]
        s.topics.contains_key(t) && (s.topics[t].publishers.contains(n)
            || s.topics[t].subscribers.contains(n)) ==> s.nodes.contains_key(n)
}

/// The invariants that hold between any two requests.
pub open spec fn broker_sound(s: BrokerView) -> bool {
    &&& topics_sound(s.topics)
    &&& addresses_unique(s.nodes)
    &&& names_nonempty(s.nodes)
    &&& members_registered(s)
}

/// The channels from new publisher `p` to each of `subs`, each carrying the
/// subscriber's own address.
pub open spec fn channels_from(p: Seq<char>, subs: Set<Seq<char>>, nodes: NodeMap) -> Map<
    ChannelKey,
    Seq<char>,
> {
    Map::new(|k: ChannelKey| k.0 == p && subs.contains(k.1), |k: ChannelKey| nodes[k.1].uds)
}

/// The channels from each of `pubs` to new subscriber `s`, each carrying
/// the address of `s`.
pub open spec fn channels_to(s: Seq<char>, pubs: Set<Seq<char>>, nodes: NodeMap) -> Map<
    ChannelKey,
    Seq<char>,
> {
    Map::new(|k: ChannelKey| pubs.contains(k.0) && k.1 == s, |k: ChannelKey| nodes[s].uds)
}

/// The topics after `n` joined `t` as a publisher, matched to every subscriber.
pub open spec fn joined_as_publisher(s: BrokerView, n: Seq<char>, t: Seq<char>, ty: Seq<char>) -> TopicMap {
    let tv = declared(s.topics, t, ty).with_publisher(n);
    s.topics.insert(
        t,
        TopicView {
            channels: tv.channels.union_prefer_right(channels_from(n, tv.subscribers, s.nodes)),
            ..tv
        },
    )
}

/// The topics after `n` joined `t` as a subscriber, matched to every publisher.
pub open spec fn joined_as_subscriber(s: BrokerView, n: Seq<char>, t: Seq<char>, ty: Seq<char>) -> TopicMap {
    let tv = declared(s.topics, t, ty).with_subscriber(n);
    s.topics.insert(
        t,
        TopicView {
            channels: tv.channels.union_prefer_right(channels_to(n, tv.publishers, s.nodes)),
            ..tv
        },
    )
}

/// The state after node `n` is gone, from the registry and from every topic.
pub open spec fn evicted(s: BrokerView, n: Seq<char>) -> BrokerView {
    BrokerView { nodes: s.nodes.remove(n), topics: without_node(s.topics, n) }
}

/// The state after the nodes `names` are gone, one after the other.
pub open spec fn evicted_all(s: BrokerView, names: Seq<Seq<char>>) -> BrokerView
    decreases names.len(),
{
    if names.len() == 0 {
        s
    } else {
        evicted(evicted_all(s, names.drop_last()), names.last())
    }
}

/// Every topic in both `a` and `b` has the same message type in each.
pub open spec fn msg_types_kept(a: TopicMap, b: TopicMap) -> bool {
    forall|t: Seq<char>| #[trigger]
        a.contains_key(t) && b.contains_key(t) ==> a[t].msg_type == b[t].msg_type
}

/// The coordination broker: the node registry and the topic registry,
/// changed together so that topics only ever name registered nodes.
#[derive(Debug)]
pub struct Broker {
    nodes: NodeManager,
    topics: TopicManager<MemoryTopicStorage>,
}

impl View for Broker {
    type V = BrokerView;

    closed spec fn view(&self) -> BrokerView {
        BrokerView { nodes: self.nodes@, topics: self.topics@ }
    }
}

impl Broker {
    pub closed spec fn parts_ok(&self) -> bool {
        &&& self.nodes.wf()
        &&& self.topics.wf()
    }

    /// The broker is well formed; in particular its state is sound.
    pub open spec fn wf(&self) -> bool {
        &&& self.parts_ok()
        &&& broker_sound(self@)
    }

    /// The directory under which node addresses are minted.
    pub closed spec fn scratch_dir(&self) -> Seq<char> {
        self.nodes.scratch_dir()
    }

    /// A broker with no nodes and no topics, minting addresses under `scratch_dir`.
    pub fn new(scratch_dir: &str) -> (r: Broker)
        ensures
            r.wf(),
            r@.nodes == Map::<Seq<char>, NodeView>::empty(),
            r@.topics == Map::<Seq<char>, TopicView>::empty(),
            r.scratch_dir() == scratch_dir@,
    {
        let nodes = NodeManager::new(UdsGenerator::new(scratch_dir));
        let topics = TopicManager::new(MemoryTopicStorage::new());
        Broker { nodes, topics }
    }

    /// Registers node `name` with a fresh address and returns the address.
    pub fn register_node(&mut self, name: &str, now: u64) -> (r: Result<String, BrokerError>)
        requires
            old(self).wf(),
        ensures
            final(self).wf(),
            final(self).scratch_dir() == old(self).scratch_dir(),
            final(self)@.topics == old(self)@.topics,
            r is Err ==> final(self)@ == old(self)@,
            name@.len() == 0 ==> {
                &&& r is Err
                &&& r->Err_0@ == BrokerErrorView::Node(NodeErrorView::EmptyName)
            },
            name@.len() > 0 && old(self)@.nodes.contains_key(name@) ==> {
                &&& r is Err
                &&& r->Err_0@ == BrokerErrorView::Node(NodeErrorView::NodeAlreadyExists(name@))
            },
            name@.len() > 0 && !old(self)@.nodes.contains_key(name@) ==> {
                ||| r is Err && r->Err_0@ == BrokerErrorView::Node(NodeErrorView::AddressUnavailable)
                ||| {
                    &&& r is Ok
                    &&& is_socket_path_in(old(self).scratch_dir(), r->Ok_0@)
                    &&& !address_taken(old(self)@.nodes, r->Ok_0@)
                    &&& final(self)@.nodes == old(self)@.nodes.insert(
                        name@,
                        NodeView { uds: r->Ok_0@, last_hb: now },
                    )
                }
            },
            name@.len() > 0 && !old(self)@.nodes.contains_key(name@) && no_address_in(
                old(self)@.nodes,
                old(self).scratch_dir(),
            ) ==> r is Ok,
    {
        match self.nodes.register_node(name, now) {
            Ok(node) => Ok(node.uds),
            Err(e) => Err(BrokerError::Node(e)),
        }
    }

    /// A copy of every registered node, each once.
    pub fn list_nodes(&self) -> (r: Vec<Node>)
        requires
            self.wf(),
        ensures
            distinct_nodes(r@),
            node_map(r@) == self@.nodes,
    {
        match self.nodes.list_nodes() {
            Ok(v) => v,
            Err(_) => Vec::new(),
        }
    }

    /// Records a heartbeat of node `name` at time `now`.
    pub fn heartbeat(&mut self, name: &str, now: u64) -> (r: Result<(), BrokerError>)
        requires
            old(self).wf(),
        ensures
            final(self).wf(),
            final(self).scratch_dir() == old(self).scratch_dir(),
            final(self)@.topics == old(self)@.topics,
            !old(self)@.nodes.contains_key(name@) ==> {
                &&& r is Err
                &&& r->Err_0@ == BrokerErrorView::Node(NodeErrorView::NodeDoesNotExist(name@))
                &&& final(self)@ == old(self)@
            },
            old(self)@.nodes.contains_key(name@) ==> {
                &&& r is Ok
                &&& final(self)@.nodes == with_heartbeat(old(self)@.nodes, name@, now)
            },
    {
        match self.nodes.update_heartbeat(name, now) {
            Ok(()) => Ok(()),
            Err(e) => Err(BrokerError::Node(e)),
        }
    }

    /// Makes node `node_name` a publisher of `topic_name`, creating the topic
    /// with type `msg_type` if it does not exist, and opens a channel from
    /// the node to every subscriber of the topic.
    pub fn add_publisher(&mut self, node_name: &str, topic_name: &str, msg_type: &str) -> (r: Result<
        (),
        BrokerError,
    >)
        requires
            old(self).wf(),
        ensures
            final(self).wf(),
            final(self).scratch_dir() == old(self).scratch_dir(),
            final(self)@.nodes == old(self)@.nodes,
            r is Err ==> final(self)@ == old(self)@,
            topic_name@.len() == 0 ==> {
                &&& r is Err
                &&& r->Err_0@ == BrokerErrorView::Topic(TopicErrorView::EmptyTopicName)
            },
            topic_name@.len() > 0 && !old(self)@.nodes.contains_key(node_name@) ==> {
                &&& r is Err
                &&& r->Err_0@ == BrokerErrorView::Node(NodeErrorView::NodeDoesNotExist(node_name@))
            },
            topic_name@.len() > 0 && old(self)@.nodes.contains_key(node_name@) && type_conflict(
                old(self)@.topics,
                topic_name@,
                msg_type@,
            ) ==> {
                &&& r is Err
                &&& r->Err_0@ == BrokerErrorView::Topic(
                    TopicErrorView::TopicTypeDoesNotMatch {
                        topic_name: topic_name@,
                        requested_type: msg_type@,
                        real_type: old(self)@.topics[topic_name@].msg_type,
                    },
                )
            },
            topic_name@.len() > 0 && old(self)@.nodes.contains_key(node_name@) && !type_conflict(
                old(self)@.topics,
                topic_name@,
                msg_type@,
            ) && declared(old(self)@.topics, topic_name@, msg_type@).publishers.contains(node_name@)
                ==> {
                &&& r is Err
                &&& r->Err_0@ == BrokerErrorView::Topic(
                    TopicErrorView::NodeAlreadyExists {
                        node: node_name@,
                        topic: topic_name@,
                        pubsub: PubOrSub::Publisher,
                    },
                )
            },
            topic_name@.len() > 0 && old(self)@.nodes.contains_key(node_name@) && !type_conflict(
                old(self)@.topics,
                topic_name@,
                msg_type@,
            ) && !declared(old(self)@.topics, topic_name@, msg_type@).publishers.contains(node_name@)
                ==> {
                &&& r is Ok
                &&& final(self)@.topics == joined_as_publisher(old(self)@, node_name@, topic_name@, msg_type@)
            },
    {
        if topic_name.is_empty() {
            return Err(BrokerError::Topic(TopicManagerError::EmptyTopicName));
        }
        if !self.nodes.contains_node(node_name) {
            return Err(
                BrokerError::Node(NodeManagerError::NodeDoesNotExist(node_name.to_owned())),
            );
        }
        match self.topics.add_publisher(&self.nodes, node_name, topic_name, msg_type) {
            Ok(()) => Ok(()),
            Err(e) => Err(BrokerError::Topic(e)),
        }
    }

    /// Makes node `node_name` a subscriber of `topic_name`, creating the
    /// topic with type `msg_type` if it does not exist, and opens a channel
    /// from every publisher of the topic to the node, at the node's address.
    pub fn add_subscriber(&mut self, node_name: &str, topic_name: &str, msg_type: &str) -> (r: Result<
        (),
        BrokerError,
    >)
        requires
            old(self).wf(),
        ensures
            final(self).wf(),
            final(self).scratch_dir() == old(self).scratch_dir(),
            final(self)@.nodes == old(self)@.nodes,
            r is Err ==> final(self)@ == old(self)@,
            topic_name@.len() == 0 ==> {
                &&& r is Err
                &&& r->Err_0@ == BrokerErrorView::Topic(TopicErrorView::EmptyTopicName)
            },
            topic_name@.len() > 0 && !old(self)@.nodes.contains_key(node_name@) ==> {
                &&& r is Err
                &&& r->Err_0@ == BrokerErrorView::Node(NodeErrorView::NodeDoesNotExist(node_name@))
            },
            topic_name@.len() > 0 && old(self)@.nodes.contains_key(node_name@) && type_conflict(
                old(self)@.topics,
                topic_name@,
                msg_type@,
            ) ==> {
                &&& r is Err
                &&& r->Err_0@ == BrokerErrorView::Topic(
                    TopicErrorView::TopicTypeDoesNotMatch {
                        topic_name: topic_name@,
                        requested_type: msg_type@,
                        real_type: old(self)@.topics[topic_name@].msg_type,
                    },
                )
            },
            topic_name@.len() > 0 && old(self)@.nodes.contains_key(node_name@) && !type_conflict(
                old(self)@.topics,
                topic_name@,
                msg_type@,
            ) && declared(old(self)@.topics, topic_name@, msg_type@).subscribers.contains(node_name@)
                ==> {
                &&& r is Err
                &&& r->Err_0@ == BrokerErrorView::Topic(
                    TopicErrorView::NodeAlreadyExists {
                        node: node_name@,
                        topic: topic_name@,
                        pubsub: PubOrSub::Subscriber,
                    },
                )
            },
            topic_name@.len() > 0 && old(self)@.nodes.contains_key(node_name@) && !type_conflict(
                old(self)@.topics,
                topic_name@,
                msg_type@,
            ) && !declared(old(self)@.topics, topic_name@, msg_type@).subscribers.contains(node_name@)
                ==> {
                &&& r is Ok
                &&& final(self)@.topics == joined_as_subscriber(old(self)@, node_name@, topic_name@, msg_type@)
            },
    {
        if topic_name.is_empty() {
            return Err(BrokerError::Topic(TopicManagerError::EmptyTopicName));
        }
        if !self.nodes.contains_node(node_name) {
            return Err(
                BrokerError::Node(NodeManagerError::NodeDoesNotExist(node_name.to_owned())),
            );
        }
        match self.topics.add_subscriber(&self.nodes, node_name, topic_name, msg_type) {
            Ok(()) => Ok(()),
            Err(e) => Err(BrokerError::Topic(e)),
        }
    }

    /// Takes node `node_name` out of the publishers of `topic_name`, with its
    /// channels; the topic goes when nobody is left on it.
    pub fn remove_publisher(&mut self, node_name: &str, topic_name: &str) -> (r: Result<(), BrokerError>)
        requires
            old(self).wf(),
        ensures
            final(self).wf(),
            final(self).scratch_dir() == old(self).scratch_dir(),
            final(self)@.nodes == old(self)@.nodes,
            !old(self)@.topics.contains_key(topic_name@) ==> {
                &&& r is Err
                &&& r->Err_0@ == BrokerErrorView::Topic(TopicErrorView::TopicDoesNotExist(topic_name@))
                &&& final(self)@ == old(self)@
            },
            old(self)@.topics.contains_key(topic_name@) ==> {
                &&& r is Ok
                &&& final(self)@.topics == settle(
                    old(self)@.topics,
                    topic_name@,
                    old(self)@.topics[topic_name@].without_publisher(node_name@),
                )
            },
    {
        match self.topics.remove_publisher(node_name, topic_name) {
            Ok(()) => {
                proof {
                    assert(members_registered(self@)) by {
                        assert forall|tt: Seq<char>, x: Seq<char>|
                            self@.topics.contains_key(tt) && (self@.topics[tt].publishers.contains(x)
                                || self@.topics[tt].subscribers.contains(x)) implies self@.nodes.contains_key(
                            x,
                        ) by {
                            assert(old(self)@.topics.contains_key(tt));
                            if tt != topic_name@ {
                                assert(old(self)@.topics[tt] == self@.topics[tt]);
                            } else {
                                assert(old(self)@.topics[tt].publishers.contains(x)
                                    || old(self)@.topics[tt].subscribers.contains(x));
                            }
                        }
                    }
                }
                Ok(())
            },
            Err(e) => Err(BrokerError::Topic(e)),
        }
    }

    /// Takes node `node_name` out of the subscribers of `topic_name`, with its
    /// channels; the topic goes when nobody is left on it.
    pub fn remove_subscriber(&mut self, node_name: &str, topic_name: &str) -> (r: Result<(), BrokerError>)
        requires
            old(self).wf(),
        ensures
            final(self).wf(),
            final(self).scratch_dir() == old(self).scratch_dir(),
            final(self)@.nodes == old(self)@.nodes,
            !old(self)@.topics.contains_key(topic_name@) ==> {
                &&& r is Err
                &&& r->Err_0@ == BrokerErrorView::Topic(TopicErrorView::TopicDoesNotExist(topic_name@))
                &&& final(self)@ == old(self)@
            },
            old(self)@.topics.contains_key(topic_name@) ==> {
                &&& r is Ok
                &&& final(self)@.topics == settle(
                    old(self)@.topics,
                    topic_name@,
                    old(self)@.topics[topic_name@].without_subscriber(node_name@),
                )
            },
    {
        match self.topics.remove_subscriber(node_name, topic_name) {
            Ok(()) => {
                proof {
                    assert(members_registered(self@)) by {
                        assert forall|tt: Seq<char>, x: Seq<char>|
                            self@.topics.contains_key(tt) && (self@.topics[tt].publishers.contains(x)
                                || self@.topics[tt].subscribers.contains(x)) implies self@.nodes.contains_key(
                            x,
                        ) by {
                            assert(old(self)@.topics.contains_key(tt));
                            if tt != topic_name@ {
                                assert(old(self)@.topics[tt] == self@.topics[tt]);
                            } else {
                                assert(old(self)@.topics[tt].publishers.contains(x)
                                    || old(self)@.topics[tt].subscribers.contains(x));
                            }
                        }
                    }
                }
                Ok(())
            },
            Err(e) => Err(BrokerError::Topic(e)),
        }
    }

    /// The channel from `publisher` to `subscriber` on `topic_name`.
    pub fn get_channel(&self, publisher: &str, subscriber: &str, topic_name: &str) -> (r: Result<
        String,
        BrokerError,
    >)
        requires
            self.wf(),
        ensures
            !self@.topics.contains_key(topic_name@) ==> {
                &&& r is Err
                &&& r->Err_0@ == BrokerErrorView::Topic(TopicErrorView::TopicDoesNotExist(topic_name@))
            },
            self@.topics.contains_key(topic_name@) && !self@.topics[topic_name@].channels.contains_key(
                (publisher@, subscriber@),
            ) ==> {
                &&& r is Err
                &&& r->Err_0@ == BrokerErrorView::Topic(
                    TopicErrorView::ChannelDoesNotExist {
                        publisher: publisher@,
                        subscriber: subscriber@,
                        topic_name: topic_name@,
                    },
                )
            },
            self@.topics.contains_key(topic_name@) && self@.topics[topic_name@].channels.contains_key(
                (publisher@, subscriber@),
            ) ==> {
                &&& r is Ok
                &&& r->Ok_0@ == self@.topics[topic_name@].channels[(publisher@, subscriber@)]
            },
    {
        match self.topics.get_channel(publisher, subscriber, topic_name) {
            Ok(c) => Ok(c),
            Err(e) => Err(BrokerError::Topic(e)),
        }
    }

    /// The publishers of `topic_name`, each once.
    pub fn get_publishers(&self, topic_name: &str) -> (r: Result<Vec<String>, BrokerError>)
        requires
            self.wf(),
        ensures
            !self@.topics.contains_key(topic_name@) ==> {
                &&& r is Err
                &&& r->Err_0@ == BrokerErrorView::Topic(TopicErrorView::TopicDoesNotExist(topic_name@))
            },
            self@.topics.contains_key(topic_name@) ==> {
                &&& r is Ok
                &&& distinct_names(r->Ok_0@)
                &&& name_set(r->Ok_0@) == self@.topics[topic_name@].publishers
            },
    {
        match self.topics.get_publishers(topic_name) {
            Ok(v) => Ok(v),
            Err(e) => Err(BrokerError::Topic(e)),
        }
    }

    /// The subscribers of `topic_name`, each once.
    pub fn get_subscribers(&self, topic_name: &str) -> (r: Result<Vec<String>, BrokerError>)
        requires
            self.wf(),
        ensures
            !self@.topics.contains_key(topic_name@) ==> {
                &&& r is Err
                &&& r->Err_0@ == BrokerErrorView::Topic(TopicErrorView::TopicDoesNotExist(topic_name@))
            },
            self@.topics.contains_key(topic_name@) ==> {
                &&& r is Ok
                &&& distinct_names(r->Ok_0@)
                &&& name_set(r->Ok_0@) == self@.topics[topic_name@].subscribers
            },
    {
        match self.topics.get_subscribers(topic_name) {
            Ok(v) => Ok(v),
            Err(e) => Err(BrokerError::Topic(e)),
        }
    }

    /// The topics node `node_name` publishes on, each once; none is no error.
    pub fn topics_published_by(&self, node_name: &str) -> (r: Vec<String>)
        requires
            self.wf(),
        ensures
            distinct_names(r@),
            name_set(r@) == topics_of(self@.topics, node_name@, PubOrSub::Publisher),
    {
        self.topics.topics_of_node(node_name, PubOrSub::Publisher)
    }

    /// The topics node `node_name` subscribes to, each once; none is no error.
    pub fn topics_subscribed_by(&self, node_name: &str) -> (r: Vec<String>)
        requires
            self.wf(),
        ensures
            distinct_names(r@),
            name_set(r@) == topics_of(self@.topics, node_name@, PubOrSub::Subscriber),
    {
        self.topics.topics_of_node(node_name, PubOrSub::Subscriber)
    }

    /// Takes node `name` out of every topic, then out of the registry.
    pub fn delete_node(&mut self, name: &str) -> (r: Result<(), BrokerError>)
        requires
            old(self).wf(),
        ensures
            final(self).wf(),
            final(self).scratch_dir() == old(self).scratch_dir(),
            !old(self)@.nodes.contains_key(name@) ==> {
                &&& r is Err
                &&& r->Err_0@ == BrokerErrorView::Node(NodeErrorView::NodeDoesNotExist(name@))
                &&& final(self)@ == old(self)@
            },
            old(self)@.nodes.contains_key(name@) ==> {
                &&& r is Ok
                &&& final(self)@ == evicted(old(self)@, name@)
            },
    {
        if !self.nodes.contains_node(name) {
            return Err(BrokerError::Node(NodeManagerError::NodeDoesNotExist(name.to_owned())));
        }
        self.topics.remove_node(name);
        let _ = self.nodes.remove_node(name);
        proof {
            let n = name@;
            let m = old(self)@.topics;
            assert forall|tt: Seq<char>, x: Seq<char>|
                self@.topics.contains_key(tt) && (self@.topics[tt].publishers.contains(x)
                    || self@.topics[tt].subscribers.contains(x)) implies self@.nodes.contains_key(x) by {
                assert(m.contains_key(tt));
                assert(self@.topics[tt] == m[tt].without_node(n));
                assert(m[tt].publishers.contains(x) || m[tt].subscribers.contains(x));
            }
            assert(self@ == evicted(old(self)@, n));
        }
        Ok(())
    }

    /// Evicts every node that at time `now` has gone more than `threshold`
    /// milliseconds without a heartbeat, as `delete_node` would, one after
    /// the other; returns their names in that order.
    pub fn reap(&mut self, now: u64, threshold: u64) -> (r: Vec<String>)
        requires
            old(self).wf(),
        ensures
            final(self).wf(),
            final(self).scratch_dir() == old(self).scratch_dir(),
            distinct_names(r@),
            name_set(r@) == stale_names(old(self)@.nodes, now, threshold),
            final(self)@ == evicted_all(old(self)@, r@.map_values(|s: String| s@)),
            final(self)@.nodes == old(self)@.nodes.remove_keys(stale_names(old(self)@.nodes, now, threshold)),
    {
        let stale = self.nodes.stale_nodes(now, threshold);
        let mut i: usize = 0;
        proof {
            assert(stale@.take(0).map_values(|s: String| s@) =~= Seq::<Seq<char>>::empty());
            assert(name_set(stale@.take(0)) =~= Set::empty());
            assert(old(self)@.nodes.remove_keys(Set::empty()) =~= old(self)@.nodes);
            assert forall|j: int| 0 <= j < stale@.len() implies self@.nodes.contains_key(
                #[trigger] stale@[j]@,
            ) by {
                assert(name_set(stale@).contains(stale@[j]@));
            }
        }
        while i < stale.len()
            invariant
                i <= stale@.len(),
                self.wf(),
                self.scratch_dir() == old(self).scratch_dir(),
                distinct_names(stale@),
                forall|j: int| i <= j < stale@.len() ==> self@.nodes.contains_key(#[trigger] stale@[j]@),
                self@ == evicted_all(old(self)@, stale@.take(i as int).map_values(|s: String| s@)),
                self@.nodes == old(self)@.nodes.remove_keys(name_set(stale@.take(i as int))),
            decreases stale@.len() - i,
        {
            let ghost pre = self@;
            let _ = self.delete_node(stale[i].as_str());
            proof {
                let names = stale@.take(i as int + 1).map_values(|s: String| s@);
                assert(names.drop_last() =~= stale@.take(i as int).map_values(|s: String| s@));
                assert(names.last() == stale@[i as int]@);
                assert forall|j: int| i + 1 <= j < stale@.len() implies self@.nodes.contains_key(
                    #[trigger] stale@[j]@,
                ) by {
                    assert(pre.nodes.contains_key(stale@[j]@));
                    assert(stale@[j]@ != stale@[i as int]@);
                }
                lemma_name_set_take_step(stale@, i as int);
                assert(self@.nodes =~= old(self)@.nodes.remove_keys(name_set(stale@.take(i as int + 1))));
            }
            i = i + 1;
        }
        proof {
            assert(stale@.take(stale@.len() as int) =~= stale@);
        }
        stale
    }
}

} // verus!
