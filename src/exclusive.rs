use vstd::prelude::*;
use vstd::string::*;
use crate::ack::AckAction;
use crate::model::{MqttProtocol, Publish, PublishProperties};
use crate::share_leader::DeliveryOutcome;

verus! {

/// Consumer group of the exclusive pump of `client_id` on `topic_id`:
/// `exclusive_<client_id>_<topic_id>`.
pub open spec fn exclusive_group(client_id: Seq<char>, topic_id: Seq<char>) -> Seq<char> {
    "exclusive_"@ + client_id + "_"@ + topic_id
}

pub fn exclusive_group_id(client_id: &String, topic_id: &String) -> (r: String)
    ensures
        r@ == exclusive_group(client_id@, topic_id@),
{
    let mut g = String::from_str("exclusive_");
    g.append(client_id.as_str());
    g.append("_");
    g.append(topic_id.as_str());
    g
}

/// How a delivery ended, as far as the pump is concerned, once the ack
/// machine took `action`; `None` while the outcome is still open or was
/// already reported.
pub fn delivery_outcome(action: AckAction) -> (r: Option<DeliveryOutcome>)
    ensures
        (action is Delivered || action is CommitAndSendPubRel) <==> r == Some(
            DeliveryOutcome::Delivered,
        ),
        action is Failed <==> r == Some(DeliveryOutcome::Failed),
        !(action is Delivered || action is CommitAndSendPubRel || action is Failed) <==> r is None,
{
    match action {
        AckAction::Delivered | AckAction::CommitAndSendPubRel => Some(DeliveryOutcome::Delivered),
        AckAction::Failed => Some(DeliveryOutcome::Failed),
        _ => None,
    }
}

/// Offset an exclusive pump commits after an offer of the record at `offset`:
/// the record is consumed when delivered or dropped by the no-local option; a
/// failed delivery is logged and leaves the offset where it was.
pub fn exclusive_commit(outcome: DeliveryOutcome, offset: u128) -> (r: Option<u128>)
    ensures
        outcome is Failed <==> r is None,
        r matches Some(o) ==> o == offset,
{
    match outcome {
        DeliveryOutcome::Failed => None,
        _ => Some(offset),
    }
}

/// Why a delivery to one subscriber did not happen.
#[derive(Clone, Debug, PartialEq, Eq)]
pub enum DeliveryError {
    /// The payload is larger than the connection's maximum packet size.
    PacketLengthExceeded(usize),
    /// The client has no connection.
    ConnectionGone,
    /// No acknowledgement came in time.
    AckTimeout,
    /// The egress channel is closed.
    ChannelClosed,
}

/// A PUBLISH may go to a connection only if its payload fits the
/// connection's maximum packet size.
pub fn check_packet_size(publish: &Publish, max_packet_size: u32) -> (r: Result<(), DeliveryError>)
    ensures
        publish.payload@.len() <= max_packet_size ==> r is Ok,
        publish.payload@.len() > max_packet_size ==> r == Err::<(), DeliveryError>(
            DeliveryError::PacketLengthExceeded(publish.payload@.len() as usize),
        ),
{
    let len = publish.payload.len();
    if len as u64 > max_packet_size as u64 {
        Err(DeliveryError::PacketLengthExceeded(len))
    } else {
        Ok(())
    }
}

/// Properties travel only on MQTT 5 connections.
pub fn properties_for(protocol: MqttProtocol, props: PublishProperties) -> (r: Option<PublishProperties>)
    ensures
        protocol is Mqtt4 ==> r is None,
        protocol is Mqtt5 ==> r == Some(props),
{
    match protocol {
        MqttProtocol::Mqtt4 => None,
        MqttProtocol::Mqtt5 => Some(props),
    }
}

} // verus!
