//! Properties of the broker's state and of its transitions, proved over the
//! spec functions that the operations' contracts are stated in.

use vstd::prelude::*;

use crate::broker::{
    broker_sound, joined_as_publisher, joined_as_subscriber, msg_types_kept, Broker, BrokerView,
};
use crate::channels::ChannelKey;
use crate::nodes::{with_heartbeat, NodeMap};
use crate::topics::{declared, settle, type_conflict, without_node, TopicMap};

verus! {

/// Every channel of every topic runs from a publisher of that topic to a
/// subscriber of it.
pub proof fn lemma_channels_join_members(b: &Broker)
    requires
        b.wf(),
    ensures
        forall|t: Seq<char>, k: ChannelKey|
            b@.topics.contains_key(t) && #[trigger] b@.topics[t].channels.contains_key(k)
                ==> b@.topics[t].publishers.contains(k.0) && b@.topics[t].subscribers.contains(k.1),
{
    assert forall|t: Seq<char>, k: ChannelKey|
        b@.topics.contains_key(t) && #[trigger] b@.topics[t].channels.contains_key(k) implies b@.topics[t].publishers.contains(
        k.0,
    ) && b@.topics[t].subscribers.contains(k.1) by {
        assert(b@.topics[t].channels_matched());
    }
}

/// No topic is empty: each has a publisher or a subscriber.
pub proof fn lemma_no_empty_topic(b: &Broker)
    requires
        b.wf(),
    ensures
        forall|t: Seq<char>| #[trigger]
            b@.topics.contains_key(t) ==> exists|n: Seq<char>|
                b@.topics[t].publishers.contains(n) || b@.topics[t].subscribers.contains(n),
{
    assert forall|t: Seq<char>| #[trigger] b@.topics.contains_key(t) implies exists|n: Seq<char>|
        b@.topics[t].publishers.contains(n) || b@.topics[t].subscribers.contains(n) by {
        let tv = b@.topics[t];
        assert(!tv.is_empty());
        if !(exists|n: Seq<char>| tv.publishers.contains(n)) {
            assert(tv.publishers =~= Set::<Seq<char>>::empty());
            if !(exists|n: Seq<char>| tv.subscribers.contains(n)) {
                assert(tv.subscribers =~= Set::<Seq<char>>::empty());
            }
        }
    }
}

/// Every publisher and subscriber of every topic is a registered node.
pub proof fn lemma_members_registered(b: &Broker)
    requires
        b.wf(),
    ensures
        forall|t: Seq<char>, n: Seq<char>|
            b@.topics.contains_key(t) && (#[trigger] b@.topics[t].publishers.contains(n)
                || #[trigger] b@.topics[t].subscribers.contains(n)) ==> b@.nodes.contains_key(n),
{
}

/// No two registered nodes share an address.
pub proof fn lemma_addresses_unique(b: &Broker)
    requires
        b.wf(),
    ensures
        forall|a: Seq<char>, c: Seq<char>|
            b@.nodes.contains_key(a) && b@.nodes.contains_key(c) && a != c ==> #[trigger] b@.nodes[a].uds
                != #[trigger] b@.nodes[c].uds,
{
}

/// A topic's message type is the one it was created with: joining creates
/// a missing topic with the requested type, and no operation changes the
/// type of a topic that stays.
pub proof fn lemma_msg_type_fixed(s: BrokerView, n: Seq<char>, t: Seq<char>, ty: Seq<char>)
    ensures
        !s.topics.contains_key(t) ==> joined_as_publisher(s, n, t, ty)[t].msg_type == ty,
        !s.topics.contains_key(t) ==> joined_as_subscriber(s, n, t, ty)[t].msg_type == ty,
        msg_types_kept(s.topics, joined_as_publisher(s, n, t, ty)),
        msg_types_kept(s.topics, joined_as_subscriber(s, n, t, ty)),
        s.topics.contains_key(t) ==> msg_types_kept(
            s.topics,
            settle(s.topics, t, s.topics[t].without_publisher(n)),
        ),
        s.topics.contains_key(t) ==> msg_types_kept(
            s.topics,
            settle(s.topics, t, s.topics[t].without_subscriber(n)),
        ),
        msg_types_kept(s.topics, without_node(s.topics, n)),
{
}

/// Joining a topic as a publisher and leaving it again restores the
/// topics, and removes the topic where the join created it.
pub proof fn lemma_publisher_round_trip(s: BrokerView, n: Seq<char>, t: Seq<char>, ty: Seq<char>)
    requires
        broker_sound(s),
        s.nodes.contains_key(n),
        !type_conflict(s.topics, t, ty),
        !declared(s.topics, t, ty).publishers.contains(n),
    ensures
        ({
            let j = joined_as_publisher(s, n, t, ty);
            settle(j, t, j[t].without_publisher(n)) == s.topics
        }),
{
    let j = joined_as_publisher(s, n, t, ty);
    let tv = declared(s.topics, t, ty);
    let back = j[t].without_publisher(n);
    assert(back.publishers =~= tv.publishers);
    assert(back.channels =~= tv.channels) by {
        if s.topics.contains_key(t) {
            assert(tv.channels_matched());
        }
        assert forall|k: ChannelKey| #[trigger] tv.channels.contains_key(k) implies k.0 != n by {
            if s.topics.contains_key(t) {
                assert(tv.channels_matched());
            }
        }
    }
    assert(back == tv);
    if s.topics.contains_key(t) {
        assert(!tv.is_empty());
        assert(settle(j, t, back) =~= s.topics);
    } else {
        assert(tv.publishers =~= Set::<Seq<char>>::empty());
        assert(settle(j, t, back) =~= s.topics);
    }
}

/// Joining a topic as a subscriber and leaving it again restores the
/// topics, and removes the topic where the join created it.
pub proof fn lemma_subscriber_round_trip(s: BrokerView, n: Seq<char>, t: Seq<char>, ty: Seq<char>)
    requires
        broker_sound(s),
        s.nodes.contains_key(n),
        !type_conflict(s.topics, t, ty),
        !declared(s.topics, t, ty).subscribers.contains(n),
    ensures
        ({
            let j = joined_as_subscriber(s, n, t, ty);
            settle(j, t, j[t].without_subscriber(n)) == s.topics
        }),
{
    let j = joined_as_subscriber(s, n, t, ty);
    let tv = declared(s.topics, t, ty);
    let back = j[t].without_subscriber(n);
    assert(back.subscribers =~= tv.subscribers);
    assert(back.channels =~= tv.channels) by {
        assert forall|k: ChannelKey| #[trigger] tv.channels.contains_key(k) implies k.1 != n by {
            if s.topics.contains_key(t) {
                assert(tv.channels_matched());
            }
        }
    }
    assert(back == tv);
    if s.topics.contains_key(t) {
        assert(!tv.is_empty());
        assert(settle(j, t, back) =~= s.topics);
    } else {
        assert(tv.subscribers =~= Set::<Seq<char>>::empty());
        assert(settle(j, t, back) =~= s.topics);
    }
}

/// A heartbeat changes nothing but the node's timestamp, which never moves
/// back; a second heartbeat at the same time changes nothing.
pub proof fn lemma_heartbeat_idempotent(m: NodeMap, n: Seq<char>, now: u64)
    requires
        m.contains_key(n),
    ensures
        with_heartbeat(with_heartbeat(m, n, now), n, now) == with_heartbeat(m, n, now),
        with_heartbeat(m, n, now).dom() == m.dom(),
        forall|k: Seq<char>| #[trigger] m.contains_key(k) && k != n ==> with_heartbeat(m, n, now)[k] == m[k],
        with_heartbeat(m, n, now)[n].uds == m[n].uds,
        with_heartbeat(m, n, now)[n].last_hb >= m[n].last_hb,
        with_heartbeat(m, n, now)[n].last_hb >= now,
{
    assert(with_heartbeat(with_heartbeat(m, n, now), n, now) =~= with_heartbeat(m, n, now));
    assert(with_heartbeat(m, n, now).dom() =~= m.dom());
}

/// When the last publisher and then the last subscriber leave a topic, the
/// topic is gone.
pub proof fn lemma_last_members_leave(m: TopicMap, t: Seq<char>, p: Seq<char>, q: Seq<char>)
    requires
        m.contains_key(t),
        m[t].publishers == set![p],
        m[t].subscribers == set![q],
    ensures
        ({
            let m1 = settle(m, t, m[t].without_publisher(p));
            &&& m1.contains_key(t)
            &&& !settle(m1, t, m1[t].without_subscriber(q)).contains_key(t)
        }),
{
    let m1 = settle(m, t, m[t].without_publisher(p));
    assert(m[t].without_publisher(p).subscribers.contains(q));
    assert(m1[t].without_subscriber(q).publishers =~= Set::<Seq<char>>::empty());
    assert(m1[t].without_subscriber(q).subscribers =~= Set::<Seq<char>>::empty());
}

} // verus!
