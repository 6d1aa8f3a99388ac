//! One topic: its type, its members and its channels.

use vstd::prelude::*;

use crate::channels::{
    channel_map, distinct_keys, drop_endpoint, find_channel,
    lemma_channel_map_at, lemma_channel_map_push, without_endpoint, Channel, ChannelKey,
};
use crate::error::{PubOrSub, TopicErrorView, TopicManagerError};
use crate::names::{contains_name, copy_names, distinct_names, name_set, push_name, remove_name};

verus! {

/// A topic as a mathematical value: its declared message type, who publishes
/// and who subscribes, and the channel identifier of each matched pair.
pub struct TopicView {
    pub msg_type: Seq<char>,
    pub publishers: Set<Seq<char>>,
    pub subscribers: Set<Seq<char>>,
    pub channels: Map<ChannelKey, Seq<char>>,
}

impl TopicView {
    /// A topic that nobody has joined yet.
    pub open spec fn fresh(msg_type: Seq<char>) -> TopicView {
        TopicView {
            msg_type,
            publishers: Set::empty(),
            subscribers: Set::empty(),
            channels: Map::empty(),
        }
    }

    /// Nobody publishes and nobody subscribes.
    pub open spec fn is_empty(self) -> bool {
        &&& self.publishers == Set::<Seq<char>>::empty()
        &&& self.subscribers == Set::<Seq<char>>::empty()
    }

    /// Every channel runs from a publisher of the topic to a subscriber of it.
    pub open spec fn channels_matched(self) -> bool {
        forall|k: ChannelKey| #[trigger]
            self.channels.contains_key(k) ==> self.publishers.contains(k.0)
                && self.subscribers.contains(k.1)
    }

    pub open spec fn with_publisher(self, n: Seq<char>) -> TopicView {
        TopicView { publishers: self.publishers.insert(n), ..self }
    }

    pub open spec fn with_subscriber(self, n: Seq<char>) -> TopicView {
        TopicView { subscribers: self.subscribers.insert(n), ..self }
    }

    /// `n` no longer publishes, and its channels are gone.
    pub open spec fn without_publisher(self, n: Seq<char>) -> TopicView {
        TopicView {
            publishers: self.publishers.remove(n),
            channels: drop_endpoint(self.channels, n, PubOrSub::Publisher),
            ..self
        }
    }

    /// `n` no longer subscribes, and the channels to it are gone.
    pub open spec fn without_subscriber(self, n: Seq<char>) -> TopicView {
        TopicView {
            subscribers: self.subscribers.remove(n),
            channels: drop_endpoint(self.channels, n, PubOrSub::Subscriber),
            ..self
        }
    }

    /// `n` neither publishes nor subscribes any more, and every channel
    /// that has it at either end is gone.
    pub open spec fn without_node(self, n: Seq<char>) -> TopicView {
        self.without_publisher(n).without_subscriber(n)
    }

    pub open spec fn with_channel(self, p: Seq<char>, s: Seq<char>, id: Seq<char>) -> TopicView {
        TopicView { channels: self.channels.insert((p, s), id), ..self }
    }
}

/// Taking out a publisher that is not there changes nothing.
pub proof fn lemma_without_absent_publisher(tv: TopicView, n: Seq<char>)
    requires
        tv.channels_matched(),
        !tv.publishers.contains(n),
    ensures
        tv.without_publisher(n) == tv,
{
    assert(tv.publishers.remove(n) =~= tv.publishers);
    assert(drop_endpoint(tv.channels, n, PubOrSub::Publisher) =~= tv.channels);
}

/// Taking out a subscriber that is not there changes nothing.
pub proof fn lemma_without_absent_subscriber(tv: TopicView, n: Seq<char>)
    requires
        tv.channels_matched(),
        !tv.subscribers.contains(n),
    ensures
        tv.without_subscriber(n) == tv,
{
    assert(tv.subscribers.remove(n) =~= tv.subscribers);
    assert(drop_endpoint(tv.channels, n, PubOrSub::Subscriber) =~= tv.channels);
}

/// A named, typed topic with its publishers, subscribers and channels.
#[derive(Debug)]
pub struct Topic {
    name: String,
    msg_type: String,
    publishers: Vec<String>,
    subscribers: Vec<String>,
    channels: Vec<Channel>,
}

impl View for Topic {
    type V = TopicView;

    closed spec fn view(&self) -> TopicView {
        TopicView {
            msg_type: self.msg_type@,
            publishers: name_set(self.publishers@),
            subscribers: name_set(self.subscribers@),
            channels: channel_map(self.channels@),
        }
    }
}

impl Topic {
    pub closed spec fn spec_name(&self) -> Seq<char> {
        self.name@
    }

    pub closed spec fn layout_ok(&self) -> bool {
        &&& distinct_names(self.publishers@)
        &&& distinct_names(self.subscribers@)
        &&& distinct_keys(self.channels@)
    }

    /// The topic is well formed: no name or channel is held twice, and every
    /// channel joins a publisher of the topic to a subscriber of it.
    pub open spec fn wf(&self) -> bool {
        &&& self.layout_ok()
        &&& self@.channels_matched()
    }

    /// An empty topic carrying messages of type `msg_type`.
    pub fn new(name: &str, msg_type: &str) -> (t: Topic)
        ensures
            t.wf(),
            t.spec_name() == name@,
            t@ == TopicView::fresh(msg_type@),
    {
        let t = Topic {
            name: name.to_owned(),
            msg_type: msg_type.to_owned(),
            publishers: Vec::new(),
            subscribers: Vec::new(),
            channels: Vec::new(),
        };
        assert(name_set(t.publishers@) =~= Set::empty());
        assert(name_set(t.subscribers@) =~= Set::empty());
        assert(channel_map(t.channels@) =~= Map::empty());
        t
    }

    /// The topic's name.
    pub fn name(&self) -> (r: &String)
        ensures
            r@ == self.spec_name(),
    {
        &self.name
    }

    /// The message type the topic was declared with.
    pub fn msg_type(&self) -> (r: &String)
        ensures
            r@ == self@.msg_type,
    {
        &self.msg_type
    }

    /// The names of the topic's publishers, each once.
    pub fn publishers(&self) -> (r: Vec<String>)
        requires
            self.wf(),
        ensures
            distinct_names(r@),
            name_set(r@) == self@.publishers,
    {
        copy_names(&self.publishers)
    }

    /// The names of the topic's subscribers, each once.
    pub fn subscribers(&self) -> (r: Vec<String>)
        requires
            self.wf(),
        ensures
            distinct_names(r@),
            name_set(r@) == self@.subscribers,
    {
        copy_names(&self.subscribers)
    }

    /// Whether `name` holds role `side` on the topic.
    pub fn has_member(&self, name: &str, side: PubOrSub) -> (r: bool)
        ensures
            r == match side {
                PubOrSub::Publisher => self@.publishers.contains(name@),
                PubOrSub::Subscriber => self@.subscribers.contains(name@),
            },
    {
        let n = name.to_owned();
        match side {
            PubOrSub::Publisher => contains_name(&self.publishers, &n),
            PubOrSub::Subscriber => contains_name(&self.subscribers, &n),
        }
    }

    /// Nobody publishes or subscribes on the topic.
    pub fn is_empty(&self) -> (r: bool)
        ensures
            r == self@.is_empty(),
    {
        if self.publishers.len() == 0 && self.subscribers.len() == 0 {
            assert(name_set(self.publishers@) =~= Set::empty());
            assert(name_set(self.subscribers@) =~= Set::empty());
            true
        } else {
            if self.publishers.len() > 0 {
                assert(name_set(self.publishers@).contains(self.publishers@[0]@));
            } else {
                assert(name_set(self.subscribers@).contains(self.subscribers@[0]@));
            }
            false
        }
    }

    /// The channel from `publisher` to `subscriber`, if there is one.
    pub fn get_channel(&self, publisher: &str, subscriber: &str) -> (r: Option<String>)
        requires
            self.wf(),
        ensures
            r is Some <==> self@.channels.contains_key((publisher@, subscriber@)),
            r is Some ==> r->Some_0@ == self@.channels[(publisher@, subscriber@)],
    {
        let p = publisher.to_owned();
        let s = subscriber.to_owned();
        match find_channel(&self.channels, &p, &s) {
            Some(i) => {
                proof {
                    lemma_channel_map_at(self.channels@, i as int);
                }
                Some(self.channels[i].channel_id.clone())
            },
            None => None,
        }
    }

    /// Makes `name` a publisher of the topic.
    pub fn add_publisher(&mut self, name: &str) -> (r: Result<(), TopicManagerError>)
        requires
            old(self).wf(),
        ensures
            final(self).wf(),
            final(self).spec_name() == old(self).spec_name(),
            old(self)@.publishers.contains(name@) ==> {
                &&& r is Err
                &&& r->Err_0@ == (TopicErrorView::NodeAlreadyExists {
                    node: name@,
                    topic: old(self).spec_name(),
                    pubsub: PubOrSub::Publisher,
                })
                &&& final(self)@ == old(self)@
            },
            !old(self)@.publishers.contains(name@) ==> {
                &&& r is Ok
                &&& final(self)@ == old(self)@.with_publisher(name@)
            },
    {
        let n = name.to_owned();
        if contains_name(&self.publishers, &n) {
            return Err(
                TopicManagerError::NodeAlreadyExists {
                    node: n,
                    topic: self.name.clone(),
                    pubsub: PubOrSub::Publisher,
                },
            );
        }
        push_name(&mut self.publishers, n);
        assert(self@ =~= old(self)@.with_publisher(name@));
        Ok(())
    }

    /// Makes `name` a subscriber of the topic.
    pub fn add_subscriber(&mut self, name: &str) -> (r: Result<(), TopicManagerError>)
        requires
            old(self).wf(),
        ensures
            final(self).wf(),
            final(self).spec_name() == old(self).spec_name(),
            old(self)@.subscribers.contains(name@) ==> {
                &&& r is Err
                &&& r->Err_0@ == (TopicErrorView::NodeAlreadyExists {
                    node: name@,
                    topic: old(self).spec_name(),
                    pubsub: PubOrSub::Subscriber,
                })
                &&& final(self)@ == old(self)@
            },
            !old(self)@.subscribers.contains(name@) ==> {
                &&& r is Ok
                &&& final(self)@ == old(self)@.with_subscriber(name@)
            },
    {
        let n = name.to_owned();
        if contains_name(&self.subscribers, &n) {
            return Err(
                TopicManagerError::NodeAlreadyExists {
                    node: n,
                    topic: self.name.clone(),
                    pubsub: PubOrSub::Subscriber,
                },
            );
        }
        push_name(&mut self.subscribers, n);
        assert(self@ =~= old(self)@.with_subscriber(name@));
        Ok(())
    }

    /// Stops `name` publishing on the topic and drops its channels.
    pub fn remove_publisher(&mut self, name: &str) -> (r: Result<(), TopicManagerError>)
        requires
            old(self).wf(),
        ensures
            final(self).wf(),
            final(self).spec_name() == old(self).spec_name(),
            !old(self)@.publishers.contains(name@) ==> {
                &&& r is Err
                &&& r->Err_0@ == (TopicErrorView::NodeDoesntExist {
                    node: name@,
                    topic: old(self).spec_name(),
                    pubsub: PubOrSub::Publisher,
                })
                &&& final(self)@ == old(self)@
            },
            old(self)@.publishers.contains(name@) ==> {
                &&& r is Ok
                &&& final(self)@ == old(self)@.without_publisher(name@)
            },
    {
        let n = name.to_owned();
        if !contains_name(&self.publishers, &n) {
            return Err(
                TopicManagerError::NodeDoesntExist {
                    node: n,
                    topic: self.name.clone(),
                    pubsub: PubOrSub::Publisher,
                },
            );
        }
        let kept = without_endpoint(&self.channels, &n, PubOrSub::Publisher);
        self.channels = kept;
        remove_name(&mut self.publishers, &n);
        assert(self@ =~= old(self)@.without_publisher(name@));
        Ok(())
    }

    /// Stops `name` subscribing to the topic and drops the channels to it.
    pub fn remove_subscriber(&mut self, name: &str) -> (r: Result<(), TopicManagerError>)
        requires
            old(self).wf(),
        ensures
            final(self).wf(),
            final(self).spec_name() == old(self).spec_name(),
            !old(self)@.subscribers.contains(name@) ==> {
                &&& r is Err
                &&& r->Err_0@ == (TopicErrorView::NodeDoesntExist {
                    node: name@,
                    topic: old(self).spec_name(),
                    pubsub: PubOrSub::Subscriber,
                })
                &&& final(self)@ == old(self)@
            },
            old(self)@.subscribers.contains(name@) ==> {
                &&& r is Ok
                &&& final(self)@ == old(self)@.without_subscriber(name@)
            },
    {
        let n = name.to_owned();
        if !contains_name(&self.subscribers, &n) {
            return Err(
                TopicManagerError::NodeDoesntExist {
                    node: n,
                    topic: self.name.clone(),
                    pubsub: PubOrSub::Subscriber,
                },
            );
        }
        let kept = without_endpoint(&self.channels, &n, PubOrSub::Subscriber);
        self.channels = kept;
        remove_name(&mut self.subscribers, &n);
        assert(self@ =~= old(self)@.without_subscriber(name@));
        Ok(())
    }

    /// Takes `name` out of the topic in both roles, with its channels.
    pub fn remove_node(&mut self, name: &str)
        requires
            old(self).wf(),
        ensures
            final(self).wf(),
            final(self).spec_name() == old(self).spec_name(),
            final(self)@ == old(self)@.without_node(name@),
    {
        if self.remove_publisher(name).is_err() {
            proof {
                lemma_without_absent_publisher(old(self)@, name@);
            }
        }
        let ghost mid = self@;
        if self.remove_subscriber(name).is_err() {
            proof {
                lemma_without_absent_subscriber(mid, name@);
            }
        }
    }

    /// Records the channel `channel_id` from `publisher` to `subscriber`.
    pub fn add_channel(&mut self, publisher: &str, subscriber: &str, channel_id: &str) -> (r:
        Result<(), TopicManagerError>)
        requires
            old(self).wf(),
        ensures
            final(self).wf(),
            final(self).spec_name() == old(self).spec_name(),
            r is Err ==> final(self)@ == old(self)@,
            !old(self)@.publishers.contains(publisher@) ==> {
                &&& r is Err
                &&& r->Err_0@ == (TopicErrorView::NotPublishing {
                    publisher: publisher@,
                    topic_name: old(self).spec_name(),
                })
            },
            old(self)@.publishers.contains(publisher@) && !old(self)@.subscribers.contains(subscriber@)
                ==> {
                &&& r is Err
                &&& r->Err_0@ == (TopicErrorView::NotSubscribed {
                    subscriber: subscriber@,
                    topic_name: old(self).spec_name(),
                })
            },
            old(self)@.publishers.contains(publisher@) && old(self)@.subscribers.contains(subscriber@)
                && old(self)@.channels.contains_key((publisher@, subscriber@)) ==> {
                &&& r is Err
                &&& r->Err_0@ == (TopicErrorView::ChannelAlreadyExists {
                    publisher: publisher@,
                    subscriber: subscriber@,
                    topic_name: old(self).spec_name(),
                })
            },
            old(self)@.publishers.contains(publisher@) && old(self)@.subscribers.contains(subscriber@)
                && !old(self)@.channels.contains_key((publisher@, subscriber@)) ==> {
                &&& r is Ok
                &&& final(self)@ == old(self)@.with_channel(publisher@, subscriber@, channel_id@)
            },
    {
        let p = publisher.to_owned();
        let s = subscriber.to_owned();
        if !contains_name(&self.publishers, &p) {
            return Err(TopicManagerError::NotPublishing { publisher: p, topic_name: self.name.clone() });
        }
        if !contains_name(&self.subscribers, &s) {
            return Err(TopicManagerError::NotSubscribed { subscriber: s, topic_name: self.name.clone() });
        }
        if find_channel(&self.channels, &p, &s).is_some() {
            return Err(
                TopicManagerError::ChannelAlreadyExists {
                    publisher: p,
                    subscriber: s,
                    topic_name: self.name.clone(),
                },
            );
        }
        let c = Channel { publisher: p, subscriber: s, channel_id: channel_id.to_owned() };
        proof {
            lemma_channel_map_push(self.channels@, c);
        }
        self.channels.push(c);
        assert(self@ =~= old(self)@.with_channel(publisher@, subscriber@, channel_id@));
        Ok(())
    }
}

} // verus!
