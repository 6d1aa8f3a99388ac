//! Channels between a publisher and a subscriber, read as a map keyed by the pair.

use vstd::prelude::*;

use crate::error::PubOrSub;

verus! {

/// A channel from a publisher to a subscriber on one topic, with the
/// identifier that the publisher uses to reach the subscriber.
#[derive(Debug)]
pub struct Channel {
    pub publisher: String,
    pub subscriber: String,
    pub channel_id: String,
}

/// The ordered (publisher, subscriber) pair that keys a channel.
pub type ChannelKey = (Seq<char>, Seq<char>);

pub open spec fn key_of(c: Channel) -> ChannelKey {
    (c.publisher@, c.subscriber@)
}

/// No two channels of the list share their key.
pub open spec fn distinct_keys(v: Seq<Channel>) -> bool {
    forall|i: int, j: int|
        0 <= i < v.len() && 0 <= j < v.len() && i != j ==> key_of(v[i]) != key_of(v[j])
}

/// The channels of a list, keyed by (publisher, subscriber).
pub open spec fn channel_map(v: Seq<Channel>) -> Map<ChannelKey, Seq<char>> {
    Map::new(
        |k: ChannelKey| exists|i: int| 0 <= i < v.len() && key_of(v[i]) == k,
        |k: ChannelKey| v[choose|i: int| 0 <= i < v.len() && key_of(v[i]) == k].channel_id@,
    )
}

/// `m` without the keys whose endpoint on `side` is `n`.
pub open spec fn drop_endpoint(m: Map<ChannelKey, Seq<char>>, n: Seq<char>, side: PubOrSub) -> Map<
    ChannelKey,
    Seq<char>,
> {
    Map::new(|k: ChannelKey| m.contains_key(k) && !touches(k, n, side), |k: ChannelKey| m[k])
}

/// Whether key `k` has `n` at its `side` end.
pub open spec fn touches(k: ChannelKey, n: Seq<char>, side: PubOrSub) -> bool {
    match side {
        PubOrSub::Publisher => k.0 == n,
        PubOrSub::Subscriber => k.1 == n,
    }
}

pub proof fn lemma_channel_map_at(v: Seq<Channel>, i: int)
    requires
        distinct_keys(v),
        0 <= i < v.len(),
    ensures
        channel_map(v).contains_key(key_of(v[i])),
        channel_map(v)[key_of(v[i])] == v[i].channel_id@,
{
    let k = key_of(v[i]);
    assert(channel_map(v).contains_key(k));
    let j = choose|j: int| 0 <= j < v.len() && key_of(v[j]) == k;
    assert(j == i);
}

pub proof fn lemma_channel_map_push(v: Seq<Channel>, c: Channel)
    requires
        distinct_keys(v),
        !channel_map(v).contains_key(key_of(c)),
    ensures
        distinct_keys(v.push(c)),
        channel_map(v.push(c)) == channel_map(v).insert(key_of(c), c.channel_id@),
{
    let w = v.push(c);
    assert forall|i: int, j: int| 0 <= i < w.len() && 0 <= j < w.len() && i != j implies key_of(w[i])
        != key_of(w[j]) by {
        if i == v.len() {
            assert(!(0 <= j < v.len() && key_of(v[j]) == key_of(c)));
        } else if j == v.len() {
            assert(!(0 <= i < v.len() && key_of(v[i]) == key_of(c)));
        }
    }
    let m = channel_map(v).insert(key_of(c), c.channel_id@);
    assert forall|k: ChannelKey| #[trigger] m.contains_key(k) implies channel_map(w).contains_key(k)
        && channel_map(w)[k] == m[k] by {
        if k == key_of(c) {
            lemma_channel_map_at(w, v.len() as int);
        } else {
            let i = choose|i: int| 0 <= i < v.len() && key_of(v[i]) == k;
            lemma_channel_map_at(v, i);
            assert(w[i] == v[i]);
            lemma_channel_map_at(w, i);
        }
    }
    assert forall|k: ChannelKey| #[trigger] channel_map(w).contains_key(k) implies m.contains_key(
        k,
    ) by {
        let i = choose|i: int| 0 <= i < w.len() && key_of(w[i]) == k;
        if i < v.len() {
            assert(v[i] == w[i]);
        }
    }
    assert(channel_map(w) =~= m);
}

/// A copy of a channel.
pub fn copy_channel(c: &Channel) -> (r: Channel)
    ensures
        r == *c,
{
    Channel {
        publisher: c.publisher.clone(),
        subscriber: c.subscriber.clone(),
        channel_id: c.channel_id.clone(),
    }
}

/// Where the channel from `p` to `s` stands in `v`, if it does.
pub fn find_channel(v: &Vec<Channel>, p: &String, s: &String) -> (r: Option<usize>)
    requires
        distinct_keys(v@),
    ensures
        match r {
            Some(i) => i < v@.len() && key_of(v@[i as int]) == (p@, s@),
            None => !channel_map(v@).contains_key((p@, s@)),
        },
{
    let mut i: usize = 0;
    while i < v.len()
        invariant
            i <= v@.len(),
            forall|j: int| 0 <= j < i ==> key_of(v@[j]) != (p@, s@),
        decreases v@.len() - i,
    {
        if v[i].publisher == *p && v[i].subscriber == *s {
            return Some(i);
        }
        i = i + 1;
    }
    None
}

/// The channels of `v` but those that have `n` at their `side` end.
pub fn without_endpoint(v: &Vec<Channel>, n: &String, side: PubOrSub) -> (r: Vec<Channel>)
    requires
        distinct_keys(v@),
    ensures
        distinct_keys(r@),
        channel_map(r@) == drop_endpoint(channel_map(v@), n@, side),
{
    let mut r: Vec<Channel> = Vec::new();
    let mut i: usize = 0;
    proof {
        assert(channel_map(r@) =~= drop_endpoint(channel_map(v@.take(0)), n@, side));
    }
    while i < v.len()
        invariant
            i <= v@.len(),
            distinct_keys(v@),
            distinct_keys(r@),
            channel_map(r@) == drop_endpoint(channel_map(v@.take(i as int)), n@, side),
        decreases v@.len() - i,
    {
        let ghost pre = v@.take(i as int);
        let ghost c = v@[i as int];
        proof {
            assert(v@.take(i as int + 1) =~= pre.push(c));
            assert(!channel_map(pre).contains_key(key_of(c))) by {
                if channel_map(pre).contains_key(key_of(c)) {
                    let j = choose|j: int| 0 <= j < pre.len() && key_of(pre[j]) == key_of(c);
                    assert(v@[j] == pre[j]);
                }
            }
            lemma_channel_map_push(pre, c);
        }
        let keep = match side {
            PubOrSub::Publisher => v[i].publisher != *n,
            PubOrSub::Subscriber => v[i].subscriber != *n,
        };
        if keep {
            let ghost r0 = r@;
            r.push(copy_channel(&v[i]));
            proof {
                lemma_channel_map_push(r0, c);
                assert(channel_map(r@) =~= drop_endpoint(channel_map(v@.take(i as int + 1)), n@, side));
            }
        } else {
            proof {
                assert(channel_map(r@) =~= drop_endpoint(channel_map(v@.take(i as int + 1)), n@, side));
            }
        }
        i = i + 1;
    }
    assert(v@.take(v@.len() as int) =~= v@);
    r
}

} // verus!
