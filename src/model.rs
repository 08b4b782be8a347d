use vstd::prelude::*;

verus! {

/// MQTT quality of service level.
#[derive(Clone, Copy, Debug, PartialEq, Eq, Structural)]
pub enum QoS {
    AtMostOnce,
    AtLeastOnce,
    ExactlyOnce,
}

/// Numeric level of a QoS (0, 1 or 2).
pub open spec fn qos_level(q: QoS) -> nat {
    match q {
        QoS::AtMostOnce => 0,
        QoS::AtLeastOnce => 1,
        QoS::ExactlyOnce => 2,
    }
}

pub open spec fn min_nat(a: nat, b: nat) -> nat {
    if a <= b { a } else { b }
}

/// Wire protocol of a connection.
#[derive(Clone, Copy, Debug, PartialEq, Eq, Structural)]
pub enum MqttProtocol {
    Mqtt4,
    Mqtt5,
}

/// When a retained message is forwarded to a new subscription.
#[derive(Clone, Copy, Debug, PartialEq, Eq, Structural)]
pub enum RetainForwardRule {
    Never,
    Always,
    OnNewSubscribe,
}

/// The lower of two QoS levels.
pub fn min_qos(a: QoS, b: QoS) -> (r: QoS)
    ensures
        qos_level(r) == min_nat(qos_level(a), qos_level(b)),
{
    match (a, b) {
        (QoS::AtMostOnce, _) => QoS::AtMostOnce,
        (_, QoS::AtMostOnce) => QoS::AtMostOnce,
        (QoS::AtLeastOnce, _) => QoS::AtLeastOnce,
        (_, QoS::AtLeastOnce) => QoS::AtLeastOnce,
        _ => QoS::ExactlyOnce,
    }
}

/// A message read from the topic log, in decoded form.
#[derive(Clone, Debug, PartialEq, Eq)]
pub struct Message {
    pub client_id: String,
    pub payload: Vec<u8>,
    pub retain: bool,
    pub qos: QoS,
    pub format_indicator: Option<u8>,
    pub expiry_interval: Option<u32>,
    pub response_topic: Option<String>,
    pub correlation_data: Option<Vec<u8>>,
    pub user_properties: Vec<(String, String)>,
    pub content_type: Option<String>,
}

/// One subscription of one client.
#[derive(Clone, Debug, PartialEq, Eq)]
pub struct Subscriber {
    pub protocol: MqttProtocol,
    pub client_id: String,
    pub sub_path: String,
    pub topic_id: String,
    pub topic_name: String,
    pub group_name: Option<String>,
    pub qos: QoS,
    pub nolocal: bool,
    pub preserve_retain: bool,
    pub retain_forward_rule: RetainForwardRule,
    pub subscription_identifier: Option<usize>,
}

/// An outgoing PUBLISH packet.
#[derive(Clone, Debug, PartialEq, Eq)]
pub struct Publish {
    pub dup: bool,
    pub qos: QoS,
    pub pkid: u16,
    pub retain: bool,
    pub topic: String,
    pub payload: Vec<u8>,
}

/// MQTT 5 properties of an outgoing PUBLISH.
#[derive(Clone, Debug, PartialEq, Eq)]
pub struct PublishProperties {
    pub payload_format_indicator: Option<u8>,
    pub message_expiry_interval: Option<u32>,
    pub topic_alias: Option<u16>,
    pub response_topic: Option<String>,
    pub correlation_data: Option<Vec<u8>>,
    pub user_properties: Vec<(String, String)>,
    pub subscription_identifiers: Vec<usize>,
    pub content_type: Option<String>,
}

/// The subscription identifiers a delivery carries.
pub open spec fn identifiers_of(id: Option<usize>) -> Seq<usize> {
    match id {
        Some(i) => seq![i],
        None => Seq::empty(),
    }
}

/// Whether the no-local option suppresses delivery of `msg` to `sub`.
pub open spec fn is_local_drop(sub: Subscriber, msg: Message) -> bool {
    sub.nolocal && sub.client_id@ == msg.client_id@
}

/// The QoS a delivery is made with: the least of the cluster cap, the
/// subscription's and the message's.
pub open spec fn effective_qos_level(cluster_max_qos: QoS, sub: Subscriber, msg: Message) -> nat {
    min_nat(qos_level(cluster_max_qos), min_nat(qos_level(sub.qos), qos_level(msg.qos)))
}

/// What `build_publish` makes of a message for a subscriber that receives it.
pub open spec fn is_publish_for(
    cluster_max_qos: QoS,
    sub: Subscriber,
    topic_name: Seq<char>,
    msg: Message,
    p: Publish,
    props: PublishProperties,
) -> bool {
    &&& !p.dup
    &&& p.pkid == 0
    &&& qos_level(p.qos) == effective_qos_level(cluster_max_qos, sub, msg)
    &&& p.retain == (msg.retain && sub.preserve_retain)
    &&& p.topic@ == topic_name
    &&& p.payload == msg.payload
    &&& props.payload_format_indicator == msg.format_indicator
    &&& props.message_expiry_interval == msg.expiry_interval
    &&& props.topic_alias is None
    &&& props.response_topic == msg.response_topic
    &&& props.correlation_data == msg.correlation_data
    &&& props.user_properties == msg.user_properties
    &&& props.subscription_identifiers@ == identifiers_of(sub.subscription_identifier)
    &&& props.content_type == msg.content_type
}

/// Builds the PUBLISH packet and its properties that deliver `msg` on
/// `topic_name` to `subscribe`; `None` when the no-local option drops it.
pub fn build_publish(cluster_max_qos: QoS, subscribe: Subscriber, topic_name: String, msg: Message) -> (r:
    Option<(Publish, PublishProperties)>)
    ensures
        r is None <==> is_local_drop(subscribe, msg),
        r matches Some((p, props)) ==> is_publish_for(
            cluster_max_qos,
            subscribe,
            topic_name@,
            msg,
            p,
            props,
        ),
{
    if subscribe.nolocal && subscribe.client_id == msg.client_id {
        return None;
    }
    let mut sub_id: Vec<usize> = Vec::new();
    if let Some(id) = subscribe.subscription_identifier {
        sub_id.push(id);
    }
    proof {
        assert(sub_id@ =~= identifiers_of(subscribe.subscription_identifier));
    }
    let qos = min_qos(cluster_max_qos, min_qos(subscribe.qos, msg.qos));
    let retain = if subscribe.preserve_retain {
        msg.retain
    } else {
        false
    };
    let publish = Publish { dup: false, qos, pkid: 0, retain, topic: topic_name, payload: msg.payload };
    let properties = PublishProperties {
        payload_format_indicator: msg.format_indicator,
        message_expiry_interval: msg.expiry_interval,
        topic_alias: None,
        response_topic: msg.response_topic,
        correlation_data: msg.correlation_data,
        user_properties: msg.user_properties,
        subscription_identifiers: sub_id,
        content_type: msg.content_type,
    };
    Some((publish, properties))
}

} // verus!
