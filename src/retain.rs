use vstd::prelude::*;
use crate::model::{build_publish, is_local_drop, is_publish_for, Message, Publish, PublishProperties, QoS, RetainForwardRule, Subscriber};
use crate::table::StrMap;
use crate::topic::{is_topic_match, topic_matches};

verus! {

/// Whether a retained message is forwarded to a subscription under `rule`;
/// `is_new` tells whether the subscription did not exist before.
pub open spec fn forwards_retained(rule: RetainForwardRule, is_new: bool) -> bool {
    match rule {
        RetainForwardRule::Never => false,
        RetainForwardRule::Always => true,
        RetainForwardRule::OnNewSubscribe => is_new,
    }
}

pub fn should_forward_retained(rule: RetainForwardRule, is_new: bool) -> (r: bool)
    ensures
        r == forwards_retained(rule, is_new),
{
    match rule {
        RetainForwardRule::Never => false,
        RetainForwardRule::Always => true,
        RetainForwardRule::OnNewSubscribe => is_new,
    }
}

/// The PUBLISH that replays a retained message to a subscriber: built as any
/// delivery, but with the retain flag set.
pub fn build_retain_publish(cluster_max_qos: QoS, subscribe: Subscriber, topic_name: String, msg: Message) -> (r:
    Option<(Publish, PublishProperties)>)
    ensures
        r is None <==> is_local_drop(subscribe, msg),
        r matches Some((p, props)) ==> p.retain && is_publish_for(
            cluster_max_qos,
            Subscriber { preserve_retain: true, ..subscribe },
            topic_name@,
            Message { retain: true, ..msg },
            p,
            props,
        ),
{
    let mut msg = msg;
    msg.retain = true;
    let mut subscribe = subscribe;
    subscribe.preserve_retain = true;
    build_publish(cluster_max_qos, subscribe, topic_name, msg)
}

/// The latest retained message of each topic.
pub struct RetainStore {
    messages: StrMap<Message>,
}

impl RetainStore {
    pub closed spec fn table(&self) -> StrMap<Message> {
        self.messages
    }

    /// Retained message of each topic name.
    pub open spec fn view(&self) -> Map<Seq<char>, Message> {
        self.table()@
    }

    pub open spec fn wf(&self) -> bool {
        self.table().wf()
    }

    pub fn new() -> (r: Self)
        ensures
            r.wf(),
            r@ == Map::<Seq<char>, Message>::empty(),
    {
        RetainStore { messages: StrMap::new() }
    }

    /// Keeps `msg` as the retained message of `topic_name`; a message with an
    /// empty payload deletes it instead.
    pub fn save(&mut self, topic_name: String, msg: Message)
        requires
            old(self).wf(),
        ensures
            final(self).wf(),
            msg.payload@.len() == 0 ==> final(self)@ == old(self)@.remove(topic_name@),
            msg.payload@.len() > 0 ==> final(self)@ == old(self)@.insert(topic_name@, msg),
    {
        if msg.payload.len() == 0 {
            self.messages.remove(&topic_name);
        } else {
            self.messages.insert(topic_name, msg);
        }
    }

    pub fn get(&self, topic_name: &String) -> (r: Option<&Message>)
        requires
            self.wf(),
        ensures
            r is None <==> !self@.contains_key(topic_name@),
            r matches Some(m) ==> *m == self@[topic_name@],
    {
        self.messages.get(topic_name)
    }

    /// Positions (in store order) of the retained topics that `filter` matches.
    pub fn matching(&self, filter: &String) -> (r: Vec<usize>)
        requires
            self.wf(),
        ensures
            forall|j: int|
                0 <= j < r@.len() ==> (#[trigger] r@[j]) < self.table().keys().len() && topic_matches(
                    filter@,
                    self.table().keys()[r@[j] as int],
                ),
            forall|i: int|
                0 <= i < self.table().keys().len() && topic_matches(filter@, self.table().keys()[i])
                    ==> r@.contains(i as usize),
            forall|a: int, b: int| 0 <= a < b < r@.len() ==> r@[a] < r@[b],
    {
        let n = self.messages.len();
        let mut out: Vec<usize> = Vec::new();
        let mut i: usize = 0;
        while i < n
            invariant
                self.wf(),
                n == self.table().keys().len(),
                i <= n,
                forall|j: int|
                    0 <= j < out@.len() ==> (#[trigger] out@[j]) < i && topic_matches(
                        filter@,
                        self.table().keys()[out@[j] as int],
                    ),
                forall|x: int|
                    0 <= x < i && topic_matches(filter@, self.table().keys()[x]) ==> out@.contains(
                        x as usize,
                    ),
                forall|a: int, b: int| 0 <= a < b < out@.len() ==> out@[a] < out@[b],
            decreases n - i,
        {
            if is_topic_match(filter, self.messages.key_at(i)) {
                let ghost before = out@;
                out.push(i);
                proof {
                    assert forall|x: int|
                        0 <= x <= i && topic_matches(filter@, self.table().keys()[x]) implies out@.contains(
                        x as usize,
                    ) by {
                        if x < i {
                            let w = choose|w: int| 0 <= w < before.len() && before[w] == x as usize;
                            assert(out@[w] == x as usize);
                        } else {
                            assert(out@[before.len() as int] == i);
                        }
                    };
                }
            }
            i += 1;
        }
        out
    }

    pub fn topic_at(&self, i: usize) -> (r: &String)
        requires
            i < self.table().keys().len(),
        ensures
            r@ == self.table().keys()[i as int],
    {
        self.messages.key_at(i)
    }

    pub fn message_at(&self, i: usize) -> (r: &Message)
        requires
            i < self.table().keys().len(),
        ensures
            *r == self.table().values()[i as int],
    {
        self.messages.value_at(i)
    }
}

} // verus!
