use vstd::prelude::*;
use vstd::string::*;
use crate::model::MqttProtocol;

verus! {

/// Liveness record of one connection.
#[derive(Clone, Copy, Debug, PartialEq, Eq, Structural)]
pub struct ConnectionLiveTime {
    pub connection_id: u64,
    pub protocol: MqttProtocol,
    /// Keep-alive interval the client asked for, in seconds.
    pub keep_live: u16,
    /// Time of the last heartbeat, in seconds.
    pub heartbeat: u64,
}

/// Reason code of a DISCONNECT.
#[derive(Clone, Copy, Debug, PartialEq, Eq, Structural)]
pub enum DisconnectReasonCode {
    NormalDisconnection,
    AdministrativeAction,
    KeepAliveTimeout,
}

/// MQTT 5 properties of a DISCONNECT.
#[derive(Clone, Debug, PartialEq, Eq)]
pub struct DisconnectProperties {
    pub session_expiry_interval: Option<u32>,
    pub reason_string: Option<String>,
    pub user_properties: Vec<(String, String)>,
    pub server_reference: Option<String>,
}

/// A DISCONNECT the broker sends to a connection.
#[derive(Clone, Debug, PartialEq, Eq)]
pub struct DisconnectRequest {
    pub connection_id: u64,
    pub protocol: MqttProtocol,
    pub reason_code: DisconnectReasonCode,
    pub properties: Option<DisconnectProperties>,
}

/// Timing of one sweep, in milliseconds.
#[derive(Clone, Copy, Debug, PartialEq, Eq, Default, Structural)]
pub struct KeepAliveRunInfo {
    pub start_time: u128,
    pub end_time: u128,
    pub use_time: u128,
}

impl KeepAliveRunInfo {
    pub fn new(start_time: u128, end_time: u128) -> (r: Self)
        requires
            start_time <= end_time,
        ensures
            r.start_time == start_time,
            r.end_time == end_time,
            r.use_time == end_time - start_time,
    {
        KeepAliveRunInfo { start_time, end_time, use_time: end_time - start_time }
    }
}

/// A connection is dead once more than twice its keep-alive interval has
/// passed since its last heartbeat.
pub open spec fn is_expired(e: ConnectionLiveTime, now: u64) -> bool {
    now > e.heartbeat && now - e.heartbeat > 2 * e.keep_live
}

pub fn heartbeat_expired(e: &ConnectionLiveTime, now: u64) -> (r: bool)
    ensures
        r == is_expired(*e, now),
{
    now > e.heartbeat && now - e.heartbeat > 2 * (e.keep_live as u64)
}

/// The DISCONNECT that closes connection `e` for a missed heartbeat: reason
/// AdministrativeAction and, under MQTT 5, a reason string and the user
/// property `heartbeat_close = true`.
pub open spec fn is_heartbeat_disconnect(r: DisconnectRequest, e: ConnectionLiveTime) -> bool {
    &&& r.connection_id == e.connection_id
    &&& r.protocol == e.protocol
    &&& r.reason_code == DisconnectReasonCode::AdministrativeAction
    &&& e.protocol == MqttProtocol::Mqtt4 ==> r.properties is None
    &&& e.protocol == MqttProtocol::Mqtt5 ==> (r.properties matches Some(p) && p.user_properties@.len()
        == 1 && p.user_properties@[0].0@ == "heartbeat_close"@ && p.user_properties@[0].1@
        == "true"@ && p.reason_string is Some && p.session_expiry_interval is None
        && p.server_reference is None)
}

pub fn heartbeat_disconnect(e: &ConnectionLiveTime) -> (r: DisconnectRequest)
    ensures
        is_heartbeat_disconnect(r, *e),
{
    let properties = match e.protocol {
        MqttProtocol::Mqtt4 => None,
        MqttProtocol::Mqtt5 => {
            let mut user_properties: Vec<(String, String)> = Vec::new();
            user_properties.push((String::from_str("heartbeat_close"), String::from_str("true")));
            Some(
                DisconnectProperties {
                    session_expiry_interval: None,
                    reason_string: Some(
                        String::from_str(
                            "The connection was closed by the server because the heartbeat timeout was not reported.",
                        ),
                    ),
                    user_properties,
                    server_reference: None,
                },
            )
        },
    };
    DisconnectRequest {
        connection_id: e.connection_id,
        protocol: e.protocol,
        reason_code: DisconnectReasonCode::AdministrativeAction,
        properties,
    }
}

/// The entries of `s` that are expired at `now`, in order.
pub open spec fn expired_entries(s: Seq<ConnectionLiveTime>, now: u64) -> Seq<ConnectionLiveTime>
    decreases s.len(),
{
    if s.len() == 0 {
        Seq::empty()
    } else if is_expired(s.last(), now) {
        expired_entries(s.drop_last(), now).push(s.last())
    } else {
        expired_entries(s.drop_last(), now)
    }
}

/// The disconnects `r` close exactly the connections `es`, in order.
pub open spec fn disconnects_for(r: Seq<DisconnectRequest>, es: Seq<ConnectionLiveTime>) -> bool {
    &&& r.len() == es.len()
    &&& forall|j: int| 0 <= j < r.len() ==> is_heartbeat_disconnect(#[trigger] r[j], es[j])
}

/// Disconnects for every expired connection of one shard.
pub fn sweep_shard(entries: &Vec<ConnectionLiveTime>, now: u64) -> (r: Vec<DisconnectRequest>)
    ensures
        disconnects_for(r@, expired_entries(entries@, now)),
{
    let mut out: Vec<DisconnectRequest> = Vec::new();
    let mut i: usize = 0;
    while i < entries.len()
        invariant
            i <= entries.len(),
            disconnects_for(out@, expired_entries(entries@.subrange(0, i as int), now)),
        decreases entries.len() - i,
    {
        let e = &entries[i];
        proof {
            assert(entries@.subrange(0, i + 1).drop_last() =~= entries@.subrange(0, i as int));
        }
        if heartbeat_expired(e, now) {
            let d = heartbeat_disconnect(e);
            out.push(d);
        }
        i += 1;
    }
    assert(entries@.subrange(0, entries@.len() as int) =~= entries@);
    out
}

/// Ids of a shard's connections.
pub open spec fn ids_of(s: Seq<ConnectionLiveTime>) -> Seq<u64> {
    s.map_values(|e: ConnectionLiveTime| e.connection_id)
}

/// Heartbeat tables, split into shards by connection id.
pub struct HeartbeatManager {
    shard_num: u64,
    shards: Vec<Vec<ConnectionLiveTime>>,
}

/// The expired connections of all shards, shard by shard.
pub open spec fn expired_all(shards: Seq<Seq<ConnectionLiveTime>>, now: u64) -> Seq<
    ConnectionLiveTime,
>
    decreases shards.len(),
{
    if shards.len() == 0 {
        Seq::empty()
    } else {
        expired_all(shards.drop_last(), now) + expired_entries(shards.last(), now)
    }
}

impl HeartbeatManager {
    pub closed spec fn shard_count(&self) -> nat {
        self.shard_num as nat
    }

    /// The entries of each shard.
    pub closed spec fn shard_entries(&self) -> Seq<Seq<ConnectionLiveTime>> {
        self.shards@.map_values(|s: Vec<ConnectionLiveTime>| s@)
    }

    pub open spec fn wf(&self) -> bool {
        &&& 0 < self.shard_count() <= usize::MAX
        &&& self.shard_entries().len() == self.shard_count()
        &&& forall|s: int|
            0 <= s < self.shard_entries().len() ==> ids_of(#[trigger] self.shard_entries()[s]).no_duplicates()
        &&& forall|s: int, j: int|
            0 <= s < self.shard_entries().len() && 0 <= j < self.shard_entries()[s].len() ==> (
            #[trigger] self.shard_entries()[s][j]).connection_id as nat % self.shard_count() == s
    }

    pub fn new(shard_num: u64) -> (r: Self)
        requires
            0 < shard_num <= usize::MAX,
        ensures
            r.wf(),
            r.shard_count() == shard_num,
            forall|s: int| 0 <= s < shard_num ==> (#[trigger] r.shard_entries()[s]).len() == 0,
    {
        let mut shards: Vec<Vec<ConnectionLiveTime>> = Vec::new();
        let mut i: u64 = 0;
        while i < shard_num
            invariant
                i <= shard_num,
                shards@.len() == i,
                forall|s: int| 0 <= s < i ==> (#[trigger] shards@[s])@.len() == 0,
            decreases shard_num - i,
        {
            shards.push(Vec::new());
            i += 1;
        }
        let r = HeartbeatManager { shard_num, shards };
        assert forall|s: int| 0 <= s < r.shard_entries().len() implies ids_of(
            #[trigger] r.shard_entries()[s],
        ).no_duplicates() by {
            assert(ids_of(r.shard_entries()[s]) =~= Seq::<u64>::empty());
        };
        r
    }

    pub fn shard_num(&self) -> (r: u64)
        ensures
            r == self.shard_count(),
    {
        self.shard_num
    }

    /// Records a heartbeat of a connection at time `now`. A heartbeat older
    /// than the one on record does not move it backwards.
    pub fn report_heartbeat(
        &mut self,
        connection_id: u64,
        protocol: MqttProtocol,
        keep_live: u16,
        now: u64,
    )
        requires
            old(self).wf(),
        ensures
            final(self).wf(),
            final(self).shard_count() == old(self).shard_count(),
            ({
                let s = (connection_id as nat % old(self).shard_count()) as int;
                let olds = old(self).shard_entries()[s];
                let news = final(self).shard_entries()[s];
                &&& forall|t: int|
                    0 <= t < old(self).shard_entries().len() && t != s
                        ==> final(self).shard_entries()[t] == old(self).shard_entries()[t]
                &&& final(self).shard_entries().len() == old(self).shard_entries().len()
                &&& ids_of(olds).contains(connection_id) ==> ({
                    let j = ids_of(olds).index_of(connection_id);
                    news == olds.update(
                        j,
                        ConnectionLiveTime {
                            connection_id,
                            protocol,
                            keep_live,
                            heartbeat: if olds[j].heartbeat >= now { olds[j].heartbeat } else { now },
                        },
                    )
                })
                &&& !ids_of(olds).contains(connection_id) ==> news == olds.push(
                    ConnectionLiveTime { connection_id, protocol, keep_live, heartbeat: now },
                )
            }),
    {
        let s = (connection_id % self.shard_num) as usize;
        let ghost olds = self.shard_entries()[s as int];
        let mut shard = self.shards.remove(s);
        assert(shard@ == olds);
        let mut i: usize = 0;
        let mut found: bool = false;
        while i < shard.len() && !found
            invariant
                shard@ == olds,
                i <= shard.len(),
                found ==> i < shard.len() && shard@[i as int].connection_id == connection_id,
                !found ==> forall|j: int| 0 <= j < i ==> shard@[j].connection_id != connection_id,
            decreases shard.len() - i + if found { 0int } else { 1int },
        {
            if shard[i].connection_id == connection_id {
                found = true;
            } else {
                i += 1;
            }
        }
        if found {
            let last = shard[i].heartbeat;
            let heartbeat = if last >= now {
                last
            } else {
                now
            };
            let entry = ConnectionLiveTime { connection_id, protocol, keep_live, heartbeat };
            proof {
                let ids = ids_of(olds);
                assert(ids[i as int] == connection_id);
                assert(ids.contains(connection_id));
                let j = ids.index_of(connection_id);
                assert(0 <= j < ids.len() && ids[j] == connection_id);
                assert(j == i);
            }
            shard[i] = entry;
            proof {
                assert(ids_of(shard@) =~= ids_of(olds));
            }
        } else {
            proof {
                assert(!ids_of(olds).contains(connection_id)) by {
                    if ids_of(olds).contains(connection_id) {
                        let j = ids_of(olds).index_of(connection_id);
                        assert(olds[j].connection_id == connection_id);
                    }
                };
            }
            shard.push(ConnectionLiveTime { connection_id, protocol, keep_live, heartbeat: now });
            proof {
                assert(ids_of(shard@) =~= ids_of(olds).push(connection_id));
            }
        }
        self.shards.insert(s, shard);
        proof {
            assert forall|t: int|
                0 <= t < old(self).shard_entries().len() && t != s implies self.shard_entries()[t]
                == old(self).shard_entries()[t] by {};
        }
    }

    /// The liveness record of a connection, if it has one.
    pub fn get_heartbeat(&self, connection_id: u64) -> (r: Option<ConnectionLiveTime>)
        requires
            self.wf(),
        ensures
            ({
                let es = self.shard_entries()[(connection_id as nat % self.shard_count()) as int];
                &&& r is None <==> !ids_of(es).contains(connection_id)
                &&& r matches Some(e) ==> e.connection_id == connection_id && es.contains(e)
            }),
    {
        let s = (connection_id % self.shard_num) as usize;
        let shard = &self.shards[s];
        assert(s as int == (connection_id as nat % self.shard_count()) as int);
        let ghost es = self.shard_entries()[s as int];
        assert(shard@ == es);
        let mut i: usize = 0;
        while i < shard.len()
            invariant
                shard@ == es,
                es == self.shard_entries()[(connection_id as nat % self.shard_count()) as int],
                i <= shard.len(),
                forall|j: int| 0 <= j < i ==> es[j].connection_id != connection_id,
            decreases shard.len() - i,
        {
            if shard[i].connection_id == connection_id {
                let e = shard[i];
                assert(e == es[i as int]);
                assert(ids_of(es)[i as int] == connection_id);
                assert(ids_of(es).contains(connection_id));
                assert(es.contains(e));
                return Some(e);
            }
            i += 1;
        }
        assert(!ids_of(es).contains(connection_id)) by {
            if ids_of(es).contains(connection_id) {
                let j = ids_of(es).index_of(connection_id);
                assert(es[j].connection_id == connection_id);
            }
        };
        None
    }

    /// Forgets a connection that went away.
    pub fn remove_connection(&mut self, connection_id: u64)
        requires
            old(self).wf(),
        ensures
            final(self).wf(),
            final(self).shard_count() == old(self).shard_count(),
            final(self).shard_entries().len() == old(self).shard_entries().len(),
            ({
                let s = (connection_id as nat % old(self).shard_count()) as int;
                let olds = old(self).shard_entries()[s];
                &&& forall|t: int|
                    0 <= t < old(self).shard_entries().len() && t != s
                        ==> final(self).shard_entries()[t] == old(self).shard_entries()[t]
                &&& ids_of(olds).contains(connection_id) ==> final(self).shard_entries()[s]
                    == olds.remove(ids_of(olds).index_of(connection_id))
                &&& !ids_of(olds).contains(connection_id) ==> final(self).shard_entries()[s] == olds
            }),
    {
        let s = (connection_id % self.shard_num) as usize;
        let ghost olds = self.shard_entries()[s as int];
        let mut shard = self.shards.remove(s);
        assert(shard@ == olds);
        let mut i: usize = 0;
        let mut found: bool = false;
        while i < shard.len() && !found
            invariant
                shard@ == olds,
                i <= shard.len(),
                found ==> i < shard.len() && shard@[i as int].connection_id == connection_id,
                !found ==> forall|j: int| 0 <= j < i ==> shard@[j].connection_id != connection_id,
            decreases shard.len() - i + if found { 0int } else { 1int },
        {
            if shard[i].connection_id == connection_id {
                found = true;
            } else {
                i += 1;
            }
        }
        if found {
            proof {
                let ids = ids_of(olds);
                assert(ids[i as int] == connection_id);
                assert(ids.contains(connection_id));
                let j = ids.index_of(connection_id);
                assert(0 <= j < ids.len() && ids[j] == connection_id);
                assert(j == i);
            }
            shard.remove(i);
            proof {
                let ids = ids_of(olds);
                assert(ids_of(shard@) =~= ids.remove(i as int));
                assert forall|a: int, b: int|
                    0 <= a < ids_of(shard@).len() && 0 <= b < ids_of(shard@).len() && a != b implies
                    ids_of(shard@)[a] != ids_of(shard@)[b] by {
                    let oa = if a < i { a } else { a + 1 };
                    let ob = if b < i { b } else { b + 1 };
                    assert(ids_of(shard@)[a] == ids[oa]);
                    assert(ids_of(shard@)[b] == ids[ob]);
                };
            }
        } else {
            proof {
                assert(!ids_of(olds).contains(connection_id)) by {
                    if ids_of(olds).contains(connection_id) {
                        let j = ids_of(olds).index_of(connection_id);
                        assert(olds[j].connection_id == connection_id);
                    }
                };
            }
        }
        self.shards.insert(s, shard);
        proof {
            assert forall|t: int|
                0 <= t < old(self).shard_entries().len() && t != s implies self.shard_entries()[t]
                == old(self).shard_entries()[t] by {};
        }
    }

    /// Disconnects for every expired connection, shard by shard.
    pub fn sweep(&self, now: u64) -> (r: Vec<DisconnectRequest>)
        requires
            self.wf(),
        ensures
            disconnects_for(r@, expired_all(self.shard_entries(), now)),
    {
        let mut out: Vec<DisconnectRequest> = Vec::new();
        let mut i: usize = 0;
        while i < self.shards.len()
            invariant
                i <= self.shards.len(),
                disconnects_for(out@, expired_all(self.shard_entries().subrange(0, i as int), now)),
            decreases self.shards.len() - i,
        {
            let part = sweep_shard(&self.shards[i], now);
            let ghost before = out@;
            let ghost pv = part@;
            let mut part = part;
            out.append(&mut part);
            proof {
                assert(self.shard_entries().subrange(0, i + 1).drop_last() =~= self.shard_entries().subrange(
                    0,
                    i as int,
                ));
                let es = expired_all(self.shard_entries().subrange(0, i + 1), now);
                let a = expired_all(self.shard_entries().subrange(0, i as int), now);
                assert(es == a + expired_entries(self.shards@[i as int]@, now));
                assert forall|j: int| 0 <= j < out@.len() implies is_heartbeat_disconnect(
                    #[trigger] out@[j],
                    es[j],
                ) by {
                    if j >= before.len() {
                        assert(out@[j] == pv[j - before.len()]);
                    }
                };
            }
            i += 1;
        }
        assert(self.shard_entries().subrange(0, self.shards@.len() as int) =~= self.shard_entries());
        out
    }
}

} // verus!
