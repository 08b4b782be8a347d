use vstd::prelude::*;
use crate::model::{MqttProtocol, QoS, RetainForwardRule, Subscriber};
use crate::topic::{filter_spec, is_topic_match, parse_filter, topic_matches, FilterKind, FilterSpec};
use crate::table::{StrMap, key_index};
use vstd::string::*;

verus! {

/// Clone of a subscriber that is known to equal the one it copies.
pub fn copy_subscriber(s: &Subscriber) -> (r: Subscriber)
    ensures
        r == *s,
{
    let group_name = match &s.group_name {
        Some(g) => Some(g.clone()),
        None => None,
    };
    Subscriber {
        protocol: s.protocol,
        client_id: s.client_id.clone(),
        sub_path: s.sub_path.clone(),
        topic_id: s.topic_id.clone(),
        topic_name: s.topic_name.clone(),
        group_name,
        qos: s.qos,
        nolocal: s.nolocal,
        preserve_retain: s.preserve_retain,
        retain_forward_rule: s.retain_forward_rule,
        subscription_identifier: s.subscription_identifier,
    }
}

/// A shared group whose delivery cursor lives on this node.
pub struct ShareLeaderSubscribeData {
    pub group_name: String,
    pub topic_id: String,
    pub topic_name: String,
    /// Members keyed by subscription key, in the order they joined.
    pub sub_list: StrMap<Subscriber>,
}

/// The subscription tables of this node.
pub struct SubscribeManager {
    /// topic id -> (subscription key -> exclusive subscriber)
    pub topic_subscribe: StrMap<StrMap<Subscriber>>,
    /// share leader key -> group led by this node
    pub share_leader_subscribe: StrMap<ShareLeaderSubscribeData>,
    /// share key -> member whose leader lives on another node
    pub share_follower_resub: StrMap<Subscriber>,
}

impl SubscribeManager {
    pub open spec fn wf(&self) -> bool {
        &&& self.topic_subscribe.wf()
        &&& forall|i: int|
            0 <= i < self.topic_subscribe.values().len() ==> (
            #[trigger] self.topic_subscribe.values()[i]).wf()
        &&& self.share_leader_subscribe.wf()
        &&& forall|i: int|
            0 <= i < self.share_leader_subscribe.values().len() ==> (
            #[trigger] self.share_leader_subscribe.values()[i]).sub_list.wf()
        &&& self.share_follower_resub.wf()
    }

    pub fn new() -> (r: Self)
        ensures
            r.wf(),
            r.topic_subscribe@.is_empty(),
            r.share_leader_subscribe@.is_empty(),
            r.share_follower_resub@.is_empty(),
    {
        SubscribeManager {
            topic_subscribe: StrMap::new(),
            share_leader_subscribe: StrMap::new(),
            share_follower_resub: StrMap::new(),
        }
    }
}

/// Key of a subscription in the tables: `<client_id>_<path>`.
pub open spec fn sub_key_of(client_id: Seq<char>, path: Seq<char>) -> Seq<char> {
    client_id + "_"@ + path
}

pub fn sub_key(client_id: &String, path: &String) -> (r: String)
    ensures
        r@ == sub_key_of(client_id@, path@),
{
    let mut k = client_id.clone();
    k.append("_");
    k.append(path.as_str());
    k
}

/// Key of a shared group on a topic: `<group>_<topic_id>`.
pub open spec fn share_leader_key_of(group: Seq<char>, topic_id: Seq<char>) -> Seq<char> {
    group + "_"@ + topic_id
}

pub fn share_leader_key(group: &String, topic_id: &String) -> (r: String)
    ensures
        r@ == share_leader_key_of(group@, topic_id@),
{
    let mut k = group.clone();
    k.append("_");
    k.append(topic_id.as_str());
    k
}

/// `n` is `o` with `sub` added as an exclusive subscriber of topic `t`.
pub open spec fn exclusive_added(o: SubscribeManager, n: SubscribeManager, t: Seq<char>, sub: Subscriber) -> bool {
    let sk = sub_key_of(sub.client_id@, sub.sub_path@);
    &&& n.share_leader_subscribe@ == o.share_leader_subscribe@
    &&& n.share_follower_resub@ == o.share_follower_resub@
    &&& n.topic_subscribe@.dom() == o.topic_subscribe@.dom().insert(t)
    &&& forall|x: Seq<char>|
        #[trigger] o.topic_subscribe@.contains_key(x) && x != t ==> n.topic_subscribe@[x]@
            == o.topic_subscribe@[x]@
    &&& o.topic_subscribe@.contains_key(t) ==> n.topic_subscribe@[t]@ == o.topic_subscribe@[t]@.insert(
        sk,
        sub,
    )
    &&& !o.topic_subscribe@.contains_key(t) ==> n.topic_subscribe@[t]@ == Map::<
        Seq<char>,
        Subscriber,
    >::empty().insert(sk, sub)
}

/// `n` is `o` with `sub` added to the group `group` on topic `t` led here.
pub open spec fn leader_added(
    o: SubscribeManager,
    n: SubscribeManager,
    group: Seq<char>,
    t: Seq<char>,
    topic_name: Seq<char>,
    sub: Subscriber,
) -> bool {
    let k = share_leader_key_of(group, t);
    let sk = sub_key_of(sub.client_id@, sub.sub_path@);
    &&& n.topic_subscribe@ == o.topic_subscribe@
    &&& n.share_follower_resub@ == o.share_follower_resub@
    &&& n.share_leader_subscribe@.dom() == o.share_leader_subscribe@.dom().insert(k)
    &&& forall|x: Seq<char>|
        #[trigger] o.share_leader_subscribe@.contains_key(x) && x != k
            ==> n.share_leader_subscribe@[x] == o.share_leader_subscribe@[x]
    &&& o.share_leader_subscribe@.contains_key(k) ==> n.share_leader_subscribe@[k].sub_list@
        == o.share_leader_subscribe@[k].sub_list@.insert(sk, sub)
    &&& !o.share_leader_subscribe@.contains_key(k) ==> n.share_leader_subscribe@[k].sub_list@
        == Map::<Seq<char>, Subscriber>::empty().insert(sk, sub)
        && n.share_leader_subscribe@[k].group_name@ == group
        && n.share_leader_subscribe@[k].topic_id@ == t
        && n.share_leader_subscribe@[k].topic_name@ == topic_name
}

/// `n` is `o` with `sub` recorded as a member of a group led elsewhere.
pub open spec fn follower_added(o: SubscribeManager, n: SubscribeManager, sub: Subscriber) -> bool {
    &&& n.topic_subscribe@ == o.topic_subscribe@
    &&& n.share_leader_subscribe@ == o.share_leader_subscribe@
    &&& n.share_follower_resub@ == o.share_follower_resub@.insert(
        sub_key_of(sub.client_id@, sub.sub_path@),
        sub,
    )
}

impl SubscribeManager {
    /// Adds an exclusive subscriber of topic `topic_id`, keyed by its client
    /// and filter.
    pub fn add_exclusive(&mut self, topic_id: String, sub: Subscriber)
        requires
            old(self).wf(),
        ensures
            final(self).wf(),
            exclusive_added(*old(self), *final(self), topic_id@, sub),
    {
        let key = sub_key(&sub.client_id, &sub.sub_path);
        match self.topic_subscribe.find(&topic_id) {
            Some(i) => {
                let mut inner = self.topic_subscribe.replace_at(i, StrMap::new());
                assert(inner.wf());
                inner.insert(key, sub);
                self.topic_subscribe.replace_at(i, inner);
            },
            None => {
                let mut inner = StrMap::new();
                inner.insert(key, sub);
                self.topic_subscribe.insert(topic_id, inner);
            },
        }
        assert(self.wf()) by {
            assert forall|i: int| 0 <= i < self.topic_subscribe.values().len() implies (
            #[trigger] self.topic_subscribe.values()[i]).wf() by {
                if i < old(self).topic_subscribe.values().len() {
                    assert(old(self).topic_subscribe.values()[i].wf());
                }
            };
        };
    }
}

impl SubscribeManager {
    /// Adds a member to the shared group `group` on `topic_id` that this node
    /// leads, creating the group if needed.
    pub fn add_share_leader(&mut self, group: String, topic_id: String, topic_name: String, sub: Subscriber)
        requires
            old(self).wf(),
        ensures
            final(self).wf(),
            leader_added(*old(self), *final(self), group@, topic_id@, topic_name@, sub),
    {
        let key = share_leader_key(&group, &topic_id);
        let skey = sub_key(&sub.client_id, &sub.sub_path);
        match self.share_leader_subscribe.find(&key) {
            Some(i) => {
                let placeholder = ShareLeaderSubscribeData {
                    group_name: String::new(),
                    topic_id: String::new(),
                    topic_name: String::new(),
                    sub_list: StrMap::new(),
                };
                let mut data = self.share_leader_subscribe.replace_at(i, placeholder);
                assert(data.sub_list.wf());
                data.sub_list.insert(skey, sub);
                self.share_leader_subscribe.replace_at(i, data);
            },
            None => {
                let mut sub_list = StrMap::new();
                sub_list.insert(skey, sub);
                let data = ShareLeaderSubscribeData { group_name: group, topic_id, topic_name, sub_list };
                self.share_leader_subscribe.insert(key, data);
            },
        }
        assert(self.wf()) by {
            assert forall|i: int| 0 <= i < self.share_leader_subscribe.values().len() implies (
            #[trigger] self.share_leader_subscribe.values()[i]).sub_list.wf() by {
                if i < old(self).share_leader_subscribe.values().len() {
                    assert(old(self).share_leader_subscribe.values()[i].sub_list.wf());
                }
            };
        };
    }

    /// Records a member of a shared group led by another node.
    pub fn add_share_follower(&mut self, sub: Subscriber)
        requires
            old(self).wf(),
        ensures
            final(self).wf(),
            follower_added(*old(self), *final(self), sub),
    {
        let key = sub_key(&sub.client_id, &sub.sub_path);
        self.share_follower_resub.insert(key, sub);
    }

    /// Deletes the subscription of `client_id` to `path` from every table.
    /// A shared group left without members stays until the pump sweep removes
    /// it.
    pub fn remove_subscribe(&mut self, client_id: &String, path: &String)
        requires
            old(self).wf(),
        ensures
            final(self).wf(),
            ({
                let sk = sub_key_of(client_id@, path@);
                &&& final(self).topic_subscribe.keys() == old(self).topic_subscribe.keys()
                &&& forall|j: int|
                    0 <= j < old(self).topic_subscribe.values().len() ==> (
                    #[trigger] final(self).topic_subscribe.values()[j])@
                        == old(self).topic_subscribe.values()[j]@.remove(sk)
                &&& final(self).share_leader_subscribe.keys() == old(self).share_leader_subscribe.keys()
                &&& forall|j: int|
                    0 <= j < old(self).share_leader_subscribe.values().len() ==> (
                    #[trigger] final(self).share_leader_subscribe.values()[j]).sub_list@
                        == old(self).share_leader_subscribe.values()[j].sub_list@.remove(sk)
                &&& final(self).share_follower_resub@ == old(self).share_follower_resub@.remove(sk)
            }),
    {
        let key = sub_key(client_id, path);
        let n = self.topic_subscribe.len();
        let mut i: usize = 0;
        while i < n
            invariant
                self.wf(),
                n == old(self).topic_subscribe.values().len(),
                i <= n,
                self.topic_subscribe.keys() == old(self).topic_subscribe.keys(),
                self.topic_subscribe.values().len() == n,
                forall|j: int| 0 <= j < i ==> (#[trigger] self.topic_subscribe.values()[j])@
                    == old(self).topic_subscribe.values()[j]@.remove(key@),
                forall|j: int| i <= j < n ==> #[trigger] self.topic_subscribe.values()[j]
                    == old(self).topic_subscribe.values()[j],
                self.share_leader_subscribe == old(self).share_leader_subscribe,
                self.share_follower_resub == old(self).share_follower_resub,
            decreases n - i,
        {
            let mut inner = self.topic_subscribe.replace_at(i, StrMap::new());
            assert(inner.wf());
            inner.remove(&key);
            self.topic_subscribe.replace_at(i, inner);
            i += 1;
        }
        let m = self.share_leader_subscribe.len();
        let mut i: usize = 0;
        while i < m
            invariant
                self.wf(),
                m == old(self).share_leader_subscribe.values().len(),
                i <= m,
                self.share_leader_subscribe.keys() == old(self).share_leader_subscribe.keys(),
                self.share_leader_subscribe.values().len() == m,
                forall|j: int| 0 <= j < i ==> (#[trigger] self.share_leader_subscribe.values()[j]).sub_list@
                    == old(self).share_leader_subscribe.values()[j].sub_list@.remove(key@),
                forall|j: int| i <= j < m ==> #[trigger] self.share_leader_subscribe.values()[j]
                    == old(self).share_leader_subscribe.values()[j],
                self.topic_subscribe.keys() == old(self).topic_subscribe.keys(),
                forall|j: int| 0 <= j < n ==> (#[trigger] self.topic_subscribe.values()[j])@
                    == old(self).topic_subscribe.values()[j]@.remove(key@),
                n == old(self).topic_subscribe.values().len(),
                self.share_follower_resub == old(self).share_follower_resub,
            decreases m - i,
        {
            let placeholder = ShareLeaderSubscribeData {
                group_name: String::new(),
                topic_id: String::new(),
                topic_name: String::new(),
                sub_list: StrMap::new(),
            };
            let mut data = self.share_leader_subscribe.replace_at(i, placeholder);
            assert(data.sub_list.wf());
            data.sub_list.remove(&key);
            self.share_leader_subscribe.replace_at(i, data);
            i += 1;
        }
        self.share_follower_resub.remove(&key);
    }
}

/// One filter of a SUBSCRIBE.
#[derive(Clone, Debug, PartialEq, Eq)]
pub struct Filter {
    pub path: String,
    pub qos: QoS,
    pub nolocal: bool,
    pub preserve_retain: bool,
    pub retain_forward_rule: RetainForwardRule,
}

/// Why a filter was refused.
#[derive(Clone, Copy, Debug, PartialEq, Eq, Structural)]
pub enum SubscribeError {
    /// `$share/` without a group or without a path.
    InvalidFilter,
}

/// The subscriber record a filter makes on topic `topic_id` / `topic_name`.
pub open spec fn is_subscriber_for(
    s: Subscriber,
    protocol: MqttProtocol,
    client_id: Seq<char>,
    filter: Filter,
    subscription_identifier: Option<usize>,
    topic_id: Seq<char>,
    topic_name: Seq<char>,
    group: Option<Seq<char>>,
) -> bool {
    &&& s.protocol == protocol
    &&& s.client_id@ == client_id
    &&& s.sub_path@ == filter.path@
    &&& s.topic_id@ == topic_id
    &&& s.topic_name@ == topic_name
    &&& match group {
        Some(g) => s.group_name matches Some(n) && n@ == g,
        None => s.group_name is None,
    }
    &&& s.qos == filter.qos
    &&& s.nolocal == filter.nolocal
    &&& s.preserve_retain == filter.preserve_retain
    &&& s.retain_forward_rule == filter.retain_forward_rule
    &&& s.subscription_identifier == subscription_identifier
}

/// `n` is `o` after filter `filter` of `client_id` was applied to the topic
/// as subscriber `s`.
pub open spec fn applied_subscription(
    o: SubscribeManager,
    n: SubscribeManager,
    protocol: MqttProtocol,
    client_id: Seq<char>,
    filter: Filter,
    subscription_identifier: Option<usize>,
    topic_id: Seq<char>,
    topic_name: Seq<char>,
    is_leader: bool,
    s: Subscriber,
) -> bool {
    match filter_spec(filter.path@) {
        FilterSpec::Shared(g, _) => is_subscriber_for(
            s,
            protocol,
            client_id,
            filter,
            subscription_identifier,
            topic_id,
            topic_name,
            Some(g),
        ) && if is_leader {
            leader_added(o, n, g, topic_id, topic_name, s)
        } else {
            follower_added(o, n, s)
        },
        _ => is_subscriber_for(
            s,
            protocol,
            client_id,
            filter,
            subscription_identifier,
            topic_id,
            topic_name,
            None,
        ) && exclusive_added(o, n, topic_id, s),
    }
}

impl SubscribeManager {
    /// Applies one filter of a SUBSCRIBE to one topic. A plain filter that
    /// matches the topic adds an exclusive subscriber; a shared filter whose
    /// path matches adds a member to the group, in the leader table when this
    /// node leads the group and in the follower table otherwise. Returns
    /// whether the topic matched; a malformed shared filter is refused.
    pub fn subscribe_topic(
        &mut self,
        protocol: MqttProtocol,
        client_id: &String,
        filter: &Filter,
        subscription_identifier: Option<usize>,
        topic_id: &String,
        topic_name: &String,
        is_leader: bool,
    ) -> (r: Result<bool, SubscribeError>)
        requires
            old(self).wf(),
        ensures
            final(self).wf(),
            (filter_spec(filter.path@) is Invalid) <==> r is Err,
            r is Err || r == Ok::<bool, SubscribeError>(false) ==> *final(self) == *old(self),
            filter_spec(filter.path@) is Exclusive ==> (r == Ok::<bool, SubscribeError>(true)
                <==> topic_matches(filter.path@, topic_name@)),
            filter_spec(filter.path@) matches FilterSpec::Shared(_, p) ==> (r == Ok::<
                bool,
                SubscribeError,
            >(true) <==> topic_matches(p, topic_name@)),
            r == Ok::<bool, SubscribeError>(true) ==> exists|s: Subscriber|
                #[trigger] applied_subscription(
                    *old(self),
                    *final(self),
                    protocol,
                    client_id@,
                    *filter,
                    subscription_identifier,
                    topic_id@,
                    topic_name@,
                    is_leader,
                    s,
                ),
    {
        let kind = parse_filter(&filter.path);
        match kind {
            FilterKind::Invalid => Err(SubscribeError::InvalidFilter),
            FilterKind::Exclusive => {
                if !is_topic_match(&filter.path, topic_name) {
                    return Ok(false);
                }
                let sub = Subscriber {
                    protocol,
                    client_id: client_id.clone(),
                    sub_path: filter.path.clone(),
                    topic_id: topic_id.clone(),
                    topic_name: topic_name.clone(),
                    group_name: None,
                    qos: filter.qos,
                    nolocal: filter.nolocal,
                    preserve_retain: filter.preserve_retain,
                    retain_forward_rule: filter.retain_forward_rule,
                    subscription_identifier,
                };
                let ghost s = sub;
                self.add_exclusive(topic_id.clone(), sub);
                assert(applied_subscription(*old(self), *self, protocol, client_id@, *filter, subscription_identifier, topic_id@, topic_name@, is_leader, s));
                Ok(true)
            },
            FilterKind::Shared { group, path } => {
                if !is_topic_match(&path, topic_name) {
                    return Ok(false);
                }
                let sub = Subscriber {
                    protocol,
                    client_id: client_id.clone(),
                    sub_path: filter.path.clone(),
                    topic_id: topic_id.clone(),
                    topic_name: topic_name.clone(),
                    group_name: Some(group.clone()),
                    qos: filter.qos,
                    nolocal: filter.nolocal,
                    preserve_retain: filter.preserve_retain,
                    retain_forward_rule: filter.retain_forward_rule,
                    subscription_identifier,
                };
                let ghost s = sub;
                assert(is_subscriber_for(s, protocol, client_id@, *filter, subscription_identifier, topic_id@, topic_name@, Some(group@)));
                if is_leader {
                    self.add_share_leader(group, topic_id.clone(), topic_name.clone(), sub);
                } else {
                    self.add_share_follower(sub);
                }
                assert(applied_subscription(*old(self), *self, protocol, client_id@, *filter, subscription_identifier, topic_id@, topic_name@, is_leader, s));
                Ok(true)
            },
        }
    }
}

pub open spec fn is_empty_group(d: ShareLeaderSubscribeData) -> bool {
    d.sub_list@.is_empty()
}

/// Keys of the groups without members, in table order.
pub open spec fn empty_groups(keys: Seq<Seq<char>>, values: Seq<ShareLeaderSubscribeData>) -> Seq<
    Seq<char>,
>
    decreases keys.len(),
{
    if keys.len() == 0 || values.len() == 0 {
        Seq::empty()
    } else {
        let rest = empty_groups(keys.drop_last(), values.drop_last());
        if is_empty_group(values.last()) {
            rest.push(keys.last())
        } else {
            rest
        }
    }
}

proof fn lemma_empty_groups_in(keys: Seq<Seq<char>>, values: Seq<ShareLeaderSubscribeData>, k: Seq<char>)
    requires
        keys.len() == values.len(),
    ensures
        empty_groups(keys, values).contains(k) <==> exists|i: int|
            0 <= i < keys.len() && keys[i] == k && is_empty_group(#[trigger] values[i]),
    decreases keys.len(),
{
    if keys.len() > 0 {
        let n = keys.len() - 1;
        lemma_empty_groups_in(keys.drop_last(), values.drop_last(), k);
        let rest = empty_groups(keys.drop_last(), values.drop_last());
        if exists|i: int| 0 <= i < keys.len() && keys[i] == k && is_empty_group(#[trigger] values[i]) {
            let i = choose|i: int| 0 <= i < keys.len() && keys[i] == k && is_empty_group(#[trigger] values[i]);
            if i < n {
                assert(keys.drop_last()[i] == k && values.drop_last()[i] == values[i]);
                let w = choose|w: int| 0 <= w < rest.len() && rest[w] == k;
                if is_empty_group(values.last()) {
                    assert(rest.push(keys.last())[w] == k);
                }
            } else {
                assert(rest.push(keys.last())[rest.len() as int] == k);
            }
        }
        if empty_groups(keys, values).contains(k) {
            if is_empty_group(values.last()) && keys.last() == k {
                assert(keys[n] == k && is_empty_group(values[n]));
            } else {
                let e = empty_groups(keys, values);
                let w = choose|w: int| 0 <= w < e.len() && e[w] == k;
                if is_empty_group(values.last()) {
                    if w < rest.len() {
                        assert(rest[w] == k);
                    }
                }
                assert(rest.contains(k));
                let i = choose|i: int|
                    0 <= i < keys.drop_last().len() && keys.drop_last()[i] == k && is_empty_group(
                        #[trigger] values.drop_last()[i],
                    );
                assert(keys[i] == k && values[i] == values.drop_last()[i]);
            }
        }
    }
}

pub open spec fn is_empty_topic(d: StrMap<Subscriber>) -> bool {
    d@.is_empty()
}

/// Keys of the topics without exclusive subscribers, in table order.
pub open spec fn empty_topics(keys: Seq<Seq<char>>, values: Seq<StrMap<Subscriber>>) -> Seq<
    Seq<char>,
>
    decreases keys.len(),
{
    if keys.len() == 0 || values.len() == 0 {
        Seq::empty()
    } else {
        let rest = empty_topics(keys.drop_last(), values.drop_last());
        if is_empty_topic(values.last()) {
            rest.push(keys.last())
        } else {
            rest
        }
    }
}

proof fn lemma_empty_topics_in(keys: Seq<Seq<char>>, values: Seq<StrMap<Subscriber>>, k: Seq<char>)
    requires
        keys.len() == values.len(),
    ensures
        empty_topics(keys, values).contains(k) <==> exists|i: int|
            0 <= i < keys.len() && keys[i] == k && is_empty_topic(#[trigger] values[i]),
    decreases keys.len(),
{
    if keys.len() > 0 {
        let n = keys.len() - 1;
        lemma_empty_topics_in(keys.drop_last(), values.drop_last(), k);
        let rest = empty_topics(keys.drop_last(), values.drop_last());
        if exists|i: int| 0 <= i < keys.len() && keys[i] == k && is_empty_topic(#[trigger] values[i]) {
            let i = choose|i: int| 0 <= i < keys.len() && keys[i] == k && is_empty_topic(#[trigger] values[i]);
            if i < n {
                assert(keys.drop_last()[i] == k && values.drop_last()[i] == values[i]);
                let w = choose|w: int| 0 <= w < rest.len() && rest[w] == k;
                if is_empty_topic(values.last()) {
                    assert(rest.push(keys.last())[w] == k);
                }
            } else {
                assert(rest.push(keys.last())[rest.len() as int] == k);
            }
        }
        if empty_topics(keys, values).contains(k) {
            if is_empty_topic(values.last()) && keys.last() == k {
                assert(keys[n] == k && is_empty_topic(values[n]));
            } else {
                let e = empty_topics(keys, values);
                let w = choose|w: int| 0 <= w < e.len() && e[w] == k;
                if is_empty_topic(values.last()) {
                    if w < rest.len() {
                        assert(rest[w] == k);
                    }
                }
                assert(rest.contains(k));
                let i = choose|i: int|
                    0 <= i < keys.drop_last().len() && keys.drop_last()[i] == k && is_empty_topic(
                        #[trigger] values.drop_last()[i],
                    );
                assert(keys[i] == k && values[i] == values.drop_last()[i]);
            }
        }
    }
}

/// Removes every key of `ks` from `t`, keeping the other entries.
fn remove_keys<V>(t: &mut StrMap<V>, ks: &Vec<String>)
    requires
        old(t).wf(),
    ensures
        final(t).wf(),
        forall|k: Seq<char>| #[trigger] final(t)@.contains_key(k) <==> old(t)@.contains_key(k)
            && !ks@.map_values(|s: String| s@).contains(k),
        forall|k: Seq<char>| #[trigger] final(t)@.contains_key(k) ==> final(t)@[k] == old(t)@[k],
{
    let ghost kv = ks@.map_values(|s: String| s@);
    let mut i: usize = 0;
    while i < ks.len()
        invariant
            t.wf(),
            i <= ks.len(),
            kv == ks@.map_values(|s: String| s@),
            forall|k: Seq<char>| #[trigger] t@.contains_key(k) <==> old(t)@.contains_key(k)
                && (forall|j: int| 0 <= j < i ==> kv[j] != k),
            forall|k: Seq<char>| #[trigger] t@.contains_key(k) ==> t@[k] == old(t)@[k],
        decreases ks.len() - i,
    {
        t.remove(&ks[i]);
        assert(kv[i as int] == ks@[i as int]@);
        i += 1;
    }
    assert forall|k: Seq<char>| #[trigger] t@.contains_key(k) <==> old(t)@.contains_key(k)
        && !kv.contains(k) by {
        if kv.contains(k) {
            let w = choose|w: int| 0 <= w < kv.len() && kv[w] == k;
            assert(kv[w] == k);
        }
    };
}

impl SubscribeManager {
    /// Drops the shared groups left without members and returns their keys,
    /// in table order, so that their pumps get stopped.
    pub fn remove_empty_share_groups(&mut self) -> (r: Vec<String>)
        requires
            old(self).wf(),
        ensures
            final(self).wf(),
            r@.map_values(|s: String| s@) == empty_groups(
                old(self).share_leader_subscribe.keys(),
                old(self).share_leader_subscribe.values(),
            ),
            forall|k: Seq<char>| #[trigger] final(self).share_leader_subscribe@.contains_key(k) <==> (
                old(self).share_leader_subscribe@.contains_key(k)
                    && !old(self).share_leader_subscribe@[k].sub_list@.is_empty()),
            forall|k: Seq<char>| #[trigger] final(self).share_leader_subscribe@.contains_key(k)
                ==> final(self).share_leader_subscribe@[k] == old(self).share_leader_subscribe@[k],
            final(self).topic_subscribe == old(self).topic_subscribe,
            final(self).share_follower_resub == old(self).share_follower_resub,
    {
        let ghost keys = self.share_leader_subscribe.keys();
        let ghost values = self.share_leader_subscribe.values();
        let n = self.share_leader_subscribe.len();
        let mut out: Vec<String> = Vec::new();
        let mut i: usize = 0;
        while i < n
            invariant
                self.wf(),
                *self == *old(self),
                keys == self.share_leader_subscribe.keys(),
                values == self.share_leader_subscribe.values(),
                n == keys.len(),
                i <= n,
                out@.map_values(|s: String| s@) == empty_groups(
                    keys.subrange(0, i as int),
                    values.subrange(0, i as int),
                ),
            decreases n - i,
        {
            proof {
                assert(keys.subrange(0, i + 1).drop_last() =~= keys.subrange(0, i as int));
                assert(values.subrange(0, i + 1).drop_last() =~= values.subrange(0, i as int));
            }
            let d = self.share_leader_subscribe.value_at(i);
            assert(d.sub_list.wf());
            proof {
                assert(keys.subrange(0, i + 1).last() == keys[i as int]);
                assert(values.subrange(0, i + 1).last() == values[i as int]);
            }
            if d.sub_list.len() == 0 {
                proof {
                    assert(d.sub_list@.dom() =~= Set::<Seq<char>>::empty());
                    assert(is_empty_group(values[i as int]));
                }
                let ghost before = out@;
                out.push(self.share_leader_subscribe.key_at(i).clone());
                assert(out@.map_values(|s: String| s@) =~= before.map_values(|s: String| s@).push(
                    keys[i as int],
                ));
            } else {
                proof {
                    assert(d.sub_list@.contains_key(d.sub_list.keys()[0]));
                    assert(!is_empty_group(values[i as int]));
                }
            }
            i += 1;
        }
        assert(keys.subrange(0, n as int) =~= keys);
        assert(values.subrange(0, n as int) =~= values);
        remove_keys(&mut self.share_leader_subscribe, &out);
        proof {
            assert forall|k: Seq<char>| #[trigger] self.share_leader_subscribe@.contains_key(k) <==> (
                old(self).share_leader_subscribe@.contains_key(k)
                    && !old(self).share_leader_subscribe@[k].sub_list@.is_empty()) by {
                lemma_empty_groups_in(keys, values, k);
                if old(self).share_leader_subscribe@.contains_key(k) {
                    let j = key_index(keys, k);
                    assert(0 <= j < keys.len() && keys[j] == k);
                    if exists|i: int| 0 <= i < keys.len() && keys[i] == k && is_empty_group(#[trigger] values[i]) {
                        let i = choose|i: int| 0 <= i < keys.len() && keys[i] == k && is_empty_group(#[trigger] values[i]);
                        assert(i == j);
                    }
                }
            };
        }
        assert(self.wf()) by {
            assert forall|i: int| 0 <= i < self.share_leader_subscribe.values().len() implies (
            #[trigger] self.share_leader_subscribe.values()[i]).sub_list.wf() by {
                let k = self.share_leader_subscribe.keys()[i];
                assert(self.share_leader_subscribe@.contains_key(k));
                crate::table::lemma_value_of_key(self.share_leader_subscribe, i);
                let j = key_index(keys, k);
                assert(0 <= j < keys.len() && keys[j] == k);
            };
        };
        out
    }
}

impl SubscribeManager {
    /// Drops the topics left without exclusive subscribers and returns their
    /// ids, in table order.
    pub fn remove_empty_topics(&mut self) -> (r: Vec<String>)
        requires
            old(self).wf(),
        ensures
            final(self).wf(),
            r@.map_values(|s: String| s@) == empty_topics(
                old(self).topic_subscribe.keys(),
                old(self).topic_subscribe.values(),
            ),
            forall|k: Seq<char>| #[trigger] final(self).topic_subscribe@.contains_key(k) <==> (
                old(self).topic_subscribe@.contains_key(k)
                    && !old(self).topic_subscribe@[k]@.is_empty()),
            forall|k: Seq<char>| #[trigger] final(self).topic_subscribe@.contains_key(k)
                ==> final(self).topic_subscribe@[k] == old(self).topic_subscribe@[k],
            final(self).share_leader_subscribe == old(self).share_leader_subscribe,
            final(self).share_follower_resub == old(self).share_follower_resub,
    {
        let ghost keys = self.topic_subscribe.keys();
        let ghost values = self.topic_subscribe.values();
        let n = self.topic_subscribe.len();
        let mut out: Vec<String> = Vec::new();
        let mut i: usize = 0;
        while i < n
            invariant
                self.wf(),
                *self == *old(self),
                keys == self.topic_subscribe.keys(),
                values == self.topic_subscribe.values(),
                n == keys.len(),
                i <= n,
                out@.map_values(|s: String| s@) == empty_topics(
                    keys.subrange(0, i as int),
                    values.subrange(0, i as int),
                ),
            decreases n - i,
        {
            proof {
                assert(keys.subrange(0, i + 1).drop_last() =~= keys.subrange(0, i as int));
                assert(values.subrange(0, i + 1).drop_last() =~= values.subrange(0, i as int));
            }
            let d = self.topic_subscribe.value_at(i);
            assert(d.wf());
            proof {
                assert(keys.subrange(0, i + 1).last() == keys[i as int]);
                assert(values.subrange(0, i + 1).last() == values[i as int]);
            }
            if d.len() == 0 {
                proof {
                    assert(d@.dom() =~= Set::<Seq<char>>::empty());
                    assert(is_empty_topic(values[i as int]));
                }
                let ghost before = out@;
                out.push(self.topic_subscribe.key_at(i).clone());
                assert(out@.map_values(|s: String| s@) =~= before.map_values(|s: String| s@).push(
                    keys[i as int],
                ));
            } else {
                proof {
                    assert(d@.contains_key(d.keys()[0]));
                    assert(!is_empty_topic(values[i as int]));
                }
            }
            i += 1;
        }
        assert(keys.subrange(0, n as int) =~= keys);
        assert(values.subrange(0, n as int) =~= values);
        remove_keys(&mut self.topic_subscribe, &out);
        proof {
            assert forall|k: Seq<char>| #[trigger] self.topic_subscribe@.contains_key(k) <==> (
                old(self).topic_subscribe@.contains_key(k)
                    && !old(self).topic_subscribe@[k]@.is_empty()) by {
                lemma_empty_topics_in(keys, values, k);
                if old(self).topic_subscribe@.contains_key(k) {
                    let j = key_index(keys, k);
                    assert(0 <= j < keys.len() && keys[j] == k);
                    if exists|i: int| 0 <= i < keys.len() && keys[i] == k && is_empty_topic(#[trigger] values[i]) {
                        let i = choose|i: int| 0 <= i < keys.len() && keys[i] == k && is_empty_topic(#[trigger] values[i]);
                        assert(i == j);
                    }
                }
            };
        }
        assert(self.wf()) by {
            assert forall|i: int| 0 <= i < self.topic_subscribe.values().len() implies (
            #[trigger] self.topic_subscribe.values()[i]).wf() by {
                let k = self.topic_subscribe.keys()[i];
                assert(self.topic_subscribe@.contains_key(k));
                crate::table::lemma_value_of_key(self.topic_subscribe, i);
                let j = key_index(keys, k);
                assert(0 <= j < keys.len() && keys[j] == k);
            };
        };
        out
    }
}

impl SubscribeManager {
    /// Whether `client_id` already holds a subscription to `path` in any
    /// table; a subscription that did not is new, which decides whether
    /// retained messages are replayed to it.
    pub fn contains_subscription(&self, client_id: &String, path: &String) -> (r: bool)
        requires
            self.wf(),
        ensures
            r == ({
                let sk = sub_key_of(client_id@, path@);
                ||| exists|i: int|
                    0 <= i < self.topic_subscribe.values().len() && (#[trigger] self.topic_subscribe.values()[i])@.contains_key(sk)
                ||| exists|i: int|
                    0 <= i < self.share_leader_subscribe.values().len() && (#[trigger] self.share_leader_subscribe.values()[i]).sub_list@.contains_key(sk)
                ||| self.share_follower_resub@.contains_key(sk)
            }),
    {
        let key = sub_key(client_id, path);
        let n = self.topic_subscribe.len();
        let mut i: usize = 0;
        while i < n
            invariant
                self.wf(),
                n == self.topic_subscribe.values().len(),
                key@ == sub_key_of(client_id@, path@),
                i <= n,
                forall|j: int| 0 <= j < i ==> !(#[trigger] self.topic_subscribe.values()[j])@.contains_key(key@),
            decreases n - i,
        {
            let inner = self.topic_subscribe.value_at(i);
            assert(inner.wf());
            if inner.contains_key(&key) {
                assert(self.topic_subscribe.values()[i as int]@.contains_key(key@));
                return true;
            }
            i += 1;
        }
        let m = self.share_leader_subscribe.len();
        let mut i: usize = 0;
        while i < m
            invariant
                self.wf(),
                m == self.share_leader_subscribe.values().len(),
                n == self.topic_subscribe.values().len(),
                key@ == sub_key_of(client_id@, path@),
                i <= m,
                forall|j: int| 0 <= j < n ==> !(#[trigger] self.topic_subscribe.values()[j])@.contains_key(key@),
                forall|j: int| 0 <= j < i ==> !(#[trigger] self.share_leader_subscribe.values()[j]).sub_list@.contains_key(key@),
            decreases m - i,
        {
            let d = self.share_leader_subscribe.value_at(i);
            assert(d.sub_list.wf());
            if d.sub_list.contains_key(&key) {
                assert(self.share_leader_subscribe.values()[i as int].sub_list@.contains_key(key@));
                return true;
            }
            i += 1;
        }
        self.share_follower_resub.contains_key(&key)
    }
}

/// The members of the shared group `key`, in the order they joined; empty
/// when this node leads no such group.
pub fn build_share_leader_sub_list(subscribe_manager: &SubscribeManager, key: &String) -> (r: Vec<
    Subscriber,
>)
    requires
        subscribe_manager.wf(),
    ensures
        !subscribe_manager.share_leader_subscribe@.contains_key(key@) ==> r@.len() == 0,
        subscribe_manager.share_leader_subscribe@.contains_key(key@) ==> r@
            == subscribe_manager.share_leader_subscribe@[key@].sub_list.values(),
{
    match subscribe_manager.share_leader_subscribe.find(key) {
        None => Vec::new(),
        Some(idx) => {
            let data = subscribe_manager.share_leader_subscribe.value_at(idx);
            let ghost members = data.sub_list.values();
            assert(data.sub_list.wf());
            let mut result: Vec<Subscriber> = Vec::new();
            let n = data.sub_list.len();
            let mut i: usize = 0;
            while i < n
                invariant
                    data.sub_list.wf(),
                    n == members.len(),
                    members == data.sub_list.values(),
                    i <= n,
                    result@ == members.subrange(0, i as int),
                decreases n - i,
            {
                let s = copy_subscriber(data.sub_list.value_at(i));
                result.push(s);
                assert(result@ =~= members.subrange(0, i + 1));
                i += 1;
            }
            assert(result@ =~= members);
            result
        },
    }
}

} // verus!
