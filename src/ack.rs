use vstd::prelude::*;

verus! {

/// Kind of an acknowledgement packet.
#[derive(Clone, Copy, Debug, PartialEq, Eq, Structural)]
pub enum AckType {
    PubAck,
    PubRec,
    PubRel,
    PubComp,
}

/// An acknowledgement received from a client.
#[derive(Clone, Copy, Debug, PartialEq, Eq, Structural)]
pub struct AckPacket {
    pub ack_type: AckType,
    pub pkid: u16,
}

/// What an acknowledgement waiter sees next.
#[derive(Clone, Copy, Debug, PartialEq, Eq, Structural)]
pub enum AckEvent {
    Ack(AckPacket),
    /// No acknowledgement within the ack timeout.
    Timeout,
    /// The pump was told to stop, or the client disconnected.
    Stop,
}

/// Where a QoS 1 or QoS 2 delivery stands.
#[derive(Clone, Copy, Debug, PartialEq, Eq, Structural)]
pub enum AckState {
    /// QoS 1: PUBLISH sent, waiting for PUBACK.
    AwaitPubAck { pkid: u16, resends: u32 },
    /// QoS 2: PUBLISH sent, waiting for PUBREC.
    AwaitPubRec { pkid: u16 },
    /// QoS 2: PUBREL sent, waiting for PUBCOMP.
    AwaitPubComp { pkid: u16, resends: u32 },
    /// The delivery is over.
    Finished,
}

/// What the pump does after an event.
#[derive(Clone, Copy, Debug, PartialEq, Eq, Structural)]
pub enum AckAction {
    /// Nothing yet: keep waiting.
    Wait,
    /// Send the PUBLISH again, with the dup flag.
    ResendPublish,
    /// QoS 1 PUBACK matched: commit the offset and free the pkid.
    Delivered,
    /// QoS 2 PUBREC matched: commit the offset and send PUBREL.
    CommitAndSendPubRel,
    /// Send PUBREL again.
    ResendPubRel,
    /// QoS 2 PUBCOMP matched: free the pkid.
    Completed,
    /// The delivery failed before it was acknowledged: free the pkid and do
    /// not commit.
    Failed,
    /// Give up after the offset was committed, or on a stop: free the pkid.
    Abandoned,
}

pub open spec fn matches_ack(e: AckEvent, t: AckType, pkid: u16) -> bool {
    e == AckEvent::Ack(AckPacket { ack_type: t, pkid })
}

/// The state after a QoS 1 PUBLISH with identifier `pkid` was sent.
pub fn qos1_start(pkid: u16) -> (r: AckState)
    ensures
        r == (AckState::AwaitPubAck { pkid, resends: 0 }),
{
    AckState::AwaitPubAck { pkid, resends: 0 }
}

/// The state after a QoS 2 PUBLISH with identifier `pkid` was sent.
pub fn qos2_start(pkid: u16) -> (r: AckState)
    ensures
        r == (AckState::AwaitPubRec { pkid }),
{
    AckState::AwaitPubRec { pkid }
}

/// One step of the acknowledgement machine. Acknowledgements are matched by
/// type and identifier; any other acknowledgement is ignored. A QoS 1
/// PUBLISH is sent again on timeout at most `max_resends` times, then the
/// delivery fails. A missing PUBREC fails a QoS 2 delivery; a missing PUBCOMP
/// makes PUBREL go out again, at most `max_resends` times.
pub fn ack_step(state: AckState, event: AckEvent, max_resends: u32) -> (r: (AckState, AckAction))
    ensures
        r == ack_step_spec(state, event, max_resends),
        state is Finished ==> r == (state, AckAction::Wait),
        state matches AckState::AwaitPubAck { pkid, resends } ==> {
            &&& matches_ack(event, AckType::PubAck, pkid) ==> r == (
                AckState::Finished,
                AckAction::Delivered,
            )
            &&& event is Ack && !matches_ack(event, AckType::PubAck, pkid) ==> r == (
                state,
                AckAction::Wait,
            )
            &&& event is Timeout && resends < max_resends ==> r == (
                AckState::AwaitPubAck { pkid, resends: (resends + 1) as u32 },
                AckAction::ResendPublish,
            )
            &&& event is Timeout && resends >= max_resends ==> r == (
                AckState::Finished,
                AckAction::Failed,
            )
            &&& event is Stop ==> r == (AckState::Finished, AckAction::Failed)
        },
        state matches AckState::AwaitPubRec { pkid } ==> {
            &&& matches_ack(event, AckType::PubRec, pkid) ==> r == (
                AckState::AwaitPubComp { pkid, resends: 0 },
                AckAction::CommitAndSendPubRel,
            )
            &&& event is Ack && !matches_ack(event, AckType::PubRec, pkid) ==> r == (
                state,
                AckAction::Wait,
            )
            &&& (event is Timeout || event is Stop) ==> r == (AckState::Finished, AckAction::Failed)
        },
        state matches AckState::AwaitPubComp { pkid, resends } ==> {
            &&& matches_ack(event, AckType::PubComp, pkid) ==> r == (
                AckState::Finished,
                AckAction::Completed,
            )
            &&& event is Ack && !matches_ack(event, AckType::PubComp, pkid) ==> r == (
                state,
                AckAction::Wait,
            )
            &&& event is Timeout && resends < max_resends ==> r == (
                AckState::AwaitPubComp { pkid, resends: (resends + 1) as u32 },
                AckAction::ResendPubRel,
            )
            &&& event is Timeout && resends >= max_resends ==> r == (
                AckState::Finished,
                AckAction::Abandoned,
            )
            &&& event is Stop ==> r == (AckState::Finished, AckAction::Abandoned)
        },
{
    match state {
        AckState::Finished => (state, AckAction::Wait),
        AckState::AwaitPubAck { pkid, resends } => match event {
            AckEvent::Ack(a) => {
                if a.ack_type == AckType::PubAck && a.pkid == pkid {
                    (AckState::Finished, AckAction::Delivered)
                } else {
                    (state, AckAction::Wait)
                }
            },
            AckEvent::Timeout => {
                if resends < max_resends {
                    (AckState::AwaitPubAck { pkid, resends: resends + 1 }, AckAction::ResendPublish)
                } else {
                    (AckState::Finished, AckAction::Failed)
                }
            },
            AckEvent::Stop => (AckState::Finished, AckAction::Failed),
        },
        AckState::AwaitPubRec { pkid } => match event {
            AckEvent::Ack(a) => {
                if a.ack_type == AckType::PubRec && a.pkid == pkid {
                    (AckState::AwaitPubComp { pkid, resends: 0 }, AckAction::CommitAndSendPubRel)
                } else {
                    (state, AckAction::Wait)
                }
            },
            _ => (AckState::Finished, AckAction::Failed),
        },
        AckState::AwaitPubComp { pkid, resends } => match event {
            AckEvent::Ack(a) => {
                if a.ack_type == AckType::PubComp && a.pkid == pkid {
                    (AckState::Finished, AckAction::Completed)
                } else {
                    (state, AckAction::Wait)
                }
            },
            AckEvent::Timeout => {
                if resends < max_resends {
                    (AckState::AwaitPubComp { pkid, resends: resends + 1 }, AckAction::ResendPubRel)
                } else {
                    (AckState::Finished, AckAction::Abandoned)
                }
            },
            AckEvent::Stop => (AckState::Finished, AckAction::Abandoned),
        },
    }
}

/// Whether an action frees the pkid of the delivery.
pub open spec fn frees_pkid(a: AckAction) -> bool {
    a is Delivered || a is Completed || a is Failed || a is Abandoned
}

/// Whether an action commits the offset of the record being delivered.
pub open spec fn commits_offset(a: AckAction) -> bool {
    a is Delivered || a is CommitAndSendPubRel
}

pub fn action_frees_pkid(a: AckAction) -> (r: bool)
    ensures
        r == frees_pkid(a),
{
    match a {
        AckAction::Delivered | AckAction::Completed | AckAction::Failed | AckAction::Abandoned => true,
        _ => false,
    }
}

pub fn action_commits_offset(a: AckAction) -> (r: bool)
    ensures
        r == commits_offset(a),
{
    match a {
        AckAction::Delivered | AckAction::CommitAndSendPubRel => true,
        _ => false,
    }
}

/// The offset of a record commits only once its delivery is acknowledged (a
/// QoS 1 PUBACK or QoS 2 PUBREC matching the pkid), and the delivery's state
/// ends exactly when its pkid is freed.
pub proof fn lemma_commit_only_on_ack(state: AckState, event: AckEvent, max_resends: u32, r: (
    AckState,
    AckAction,
))
    requires
        r == ack_step_spec(state, event, max_resends),
    ensures
        commits_offset(r.1) ==> match state {
            AckState::AwaitPubAck { pkid, .. } => matches_ack(event, AckType::PubAck, pkid),
            AckState::AwaitPubRec { pkid } => matches_ack(event, AckType::PubRec, pkid),
            _ => false,
        },
        !(state is Finished) ==> (frees_pkid(r.1) <==> r.0 is Finished),
{
}

/// The transition `ack_step` makes.
pub open spec fn ack_step_spec(state: AckState, event: AckEvent, max_resends: u32) -> (AckState, AckAction) {
    match state {
        AckState::Finished => (state, AckAction::Wait),
        AckState::AwaitPubAck { pkid, resends } => match event {
            AckEvent::Ack(a) => if a.ack_type == AckType::PubAck && a.pkid == pkid {
                (AckState::Finished, AckAction::Delivered)
            } else {
                (state, AckAction::Wait)
            },
            AckEvent::Timeout => if resends < max_resends {
                (AckState::AwaitPubAck { pkid, resends: (resends + 1) as u32 }, AckAction::ResendPublish)
            } else {
                (AckState::Finished, AckAction::Failed)
            },
            AckEvent::Stop => (AckState::Finished, AckAction::Failed),
        },
        AckState::AwaitPubRec { pkid } => match event {
            AckEvent::Ack(a) => if a.ack_type == AckType::PubRec && a.pkid == pkid {
                (AckState::AwaitPubComp { pkid, resends: 0 }, AckAction::CommitAndSendPubRel)
            } else {
                (state, AckAction::Wait)
            },
            _ => (AckState::Finished, AckAction::Failed),
        },
        AckState::AwaitPubComp { pkid, resends } => match event {
            AckEvent::Ack(a) => if a.ack_type == AckType::PubComp && a.pkid == pkid {
                (AckState::Finished, AckAction::Completed)
            } else {
                (state, AckAction::Wait)
            },
            AckEvent::Timeout => if resends < max_resends {
                (AckState::AwaitPubComp { pkid, resends: (resends + 1) as u32 }, AckAction::ResendPubRel)
            } else {
                (AckState::Finished, AckAction::Abandoned)
            },
            AckEvent::Stop => (AckState::Finished, AckAction::Abandoned),
        },
    }
}

} // verus!
