use vstd::prelude::*;
use crate::model::Subscriber;
use crate::subscribe::SubscribeManager;
use crate::table::StrMap;

verus! {

/// Views of a list of strings.
pub open spec fn views(v: Seq<String>) -> Seq<Seq<char>> {
    v.map_values(|s: String| s@)
}

/// Views of a list of (topic id, subscription key) pairs.
pub open spec fn pair_views(v: Seq<(String, String)>) -> Seq<(Seq<char>, Seq<char>)> {
    v.map_values(|p: (String, String)| (p.0@, p.1@))
}

pub fn contains_str(v: &Vec<String>, s: &String) -> (r: bool)
    ensures
        r == views(v@).contains(s@),
{
    let mut i: usize = 0;
    while i < v.len()
        invariant
            i <= v.len(),
            forall|j: int| 0 <= j < i ==> v@[j]@ != s@,
        decreases v.len() - i,
    {
        if v[i] == *s {
            assert(views(v@)[i as int] == s@);
            return true;
        }
        i += 1;
    }
    assert(!views(v@).contains(s@)) by {
        if views(v@).contains(s@) {
            let j = choose|j: int| 0 <= j < views(v@).len() && views(v@)[j] == s@;
            assert(v@[j]@ == s@);
        }
    };
    false
}

pub fn contains_pair(v: &Vec<(String, String)>, t: &String, k: &String) -> (r: bool)
    ensures
        r == pair_views(v@).contains((t@, k@)),
{
    let mut i: usize = 0;
    while i < v.len()
        invariant
            i <= v.len(),
            forall|j: int| 0 <= j < i ==> (v@[j].0@, v@[j].1@) != (t@, k@),
        decreases v.len() - i,
    {
        if v[i].0 == *t && v[i].1 == *k {
            assert(pair_views(v@)[i as int] == (t@, k@));
            return true;
        }
        i += 1;
    }
    assert(!pair_views(v@).contains((t@, k@))) by {
        if pair_views(v@).contains((t@, k@)) {
            let j = choose|j: int| 0 <= j < pair_views(v@).len() && pair_views(v@)[j] == (t@, k@);
            assert((v@[j].0@, v@[j].1@) == (t@, k@));
        }
    };
    false
}

/// The running shared-group pumps whose group is gone.
pub open spec fn share_stops(m: SubscribeManager, running: Seq<Seq<char>>) -> Seq<Seq<char>>
    decreases running.len(),
{
    if running.len() == 0 {
        Seq::empty()
    } else {
        let rest = share_stops(m, running.drop_last());
        if m.share_leader_subscribe@.contains_key(running.last()) {
            rest
        } else {
            rest.push(running.last())
        }
    }
}

/// The groups, in table order, that have no running pump.
pub open spec fn share_starts(keys: Seq<Seq<char>>, running: Seq<Seq<char>>) -> Seq<Seq<char>>
    decreases keys.len(),
{
    if keys.len() == 0 {
        Seq::empty()
    } else {
        let rest = share_starts(keys.drop_last(), running);
        if running.contains(keys.last()) {
            rest
        } else {
            rest.push(keys.last())
        }
    }
}

/// Pumps of shared groups that must stop: the group they serve is no longer
/// in the table.
pub fn share_pumps_to_stop(m: &SubscribeManager, running: &Vec<String>) -> (r: Vec<String>)
    requires
        m.wf(),
    ensures
        views(r@) == share_stops(*m, views(running@)),
{
    let mut out: Vec<String> = Vec::new();
    let mut i: usize = 0;
    while i < running.len()
        invariant
            m.wf(),
            i <= running.len(),
            views(out@) == share_stops(*m, views(running@).subrange(0, i as int)),
        decreases running.len() - i,
    {
        proof {
            assert(views(running@).subrange(0, i + 1).drop_last() =~= views(running@).subrange(
                0,
                i as int,
            ));
        }
        let k = &running[i];
        if !m.share_leader_subscribe.contains_key(k) {
            let ghost before = out@;
            out.push(k.clone());
            assert(views(out@) =~= views(before).push(k@));
        }
        i += 1;
    }
    assert(views(running@).subrange(0, running@.len() as int) =~= views(running@));
    out
}

/// Shared groups that need a pump started: none runs for them.
pub fn share_pumps_to_start(m: &SubscribeManager, running: &Vec<String>) -> (r: Vec<String>)
    requires
        m.wf(),
    ensures
        views(r@) == share_starts(m.share_leader_subscribe.keys(), views(running@)),
{
    let ghost keys = m.share_leader_subscribe.keys();
    let n = m.share_leader_subscribe.len();
    let mut out: Vec<String> = Vec::new();
    let mut i: usize = 0;
    while i < n
        invariant
            m.wf(),
            n == keys.len(),
            keys == m.share_leader_subscribe.keys(),
            i <= n,
            views(out@) == share_starts(keys.subrange(0, i as int), views(running@)),
        decreases n - i,
    {
        proof {
            assert(keys.subrange(0, i + 1).drop_last() =~= keys.subrange(0, i as int));
        }
        let k = m.share_leader_subscribe.key_at(i);
        if !contains_str(running, k) {
            let ghost before = out@;
            out.push(k.clone());
            assert(views(out@) =~= views(before).push(k@));
        }
        i += 1;
    }
    assert(keys.subrange(0, n as int) =~= keys);
    out
}

/// Whether the exclusive subscription `k` of topic `t` is in the tables.
pub open spec fn exclusive_present(m: SubscribeManager, t: Seq<char>, k: Seq<char>) -> bool {
    m.topic_subscribe@.contains_key(t) && m.topic_subscribe@[t]@.contains_key(k)
}

/// The running exclusive pumps whose subscription is gone.
pub open spec fn exclusive_stops(m: SubscribeManager, running: Seq<(Seq<char>, Seq<char>)>) -> Seq<
    (Seq<char>, Seq<char>),
>
    decreases running.len(),
{
    if running.len() == 0 {
        Seq::empty()
    } else {
        let rest = exclusive_stops(m, running.drop_last());
        if exclusive_present(m, running.last().0, running.last().1) {
            rest
        } else {
            rest.push(running.last())
        }
    }
}

/// Pumps of exclusive subscriptions that must stop: their subscriber is no
/// longer subscribed to their topic.
pub fn exclusive_pumps_to_stop(m: &SubscribeManager, running: &Vec<(String, String)>) -> (r: Vec<
    (String, String),
>)
    requires
        m.wf(),
    ensures
        pair_views(r@) == exclusive_stops(*m, pair_views(running@)),
{
    let mut out: Vec<(String, String)> = Vec::new();
    let mut i: usize = 0;
    while i < running.len()
        invariant
            m.wf(),
            i <= running.len(),
            pair_views(out@) == exclusive_stops(*m, pair_views(running@).subrange(0, i as int)),
        decreases running.len() - i,
    {
        proof {
            assert(pair_views(running@).subrange(0, i + 1).drop_last() =~= pair_views(
                running@,
            ).subrange(0, i as int));
        }
        let t = &running[i].0;
        let k = &running[i].1;
        let present = match m.topic_subscribe.get(t) {
            Some(inner) => {
                assert(inner.wf()) by {
                    let idx = crate::table::key_index(m.topic_subscribe.keys(), t@);
                    assert(m.topic_subscribe.keys().contains(t@));
                    assert(0 <= idx < m.topic_subscribe.keys().len());
                };
                inner.contains_key(k)
            },
            None => false,
        };
        if !present {
            let ghost before = out@;
            out.push((t.clone(), k.clone()));
            assert(pair_views(out@) =~= pair_views(before).push((t@, k@)));
        }
        i += 1;
    }
    assert(pair_views(running@).subrange(0, running@.len() as int) =~= pair_views(running@));
    out
}

/// The subscriptions `subkeys` of topic `t` that have no running pump.
pub open spec fn missing_in(t: Seq<char>, subkeys: Seq<Seq<char>>, running: Seq<(Seq<char>, Seq<char>)>) -> Seq<
    (Seq<char>, Seq<char>),
>
    decreases subkeys.len(),
{
    if subkeys.len() == 0 {
        Seq::empty()
    } else {
        let rest = missing_in(t, subkeys.drop_last(), running);
        if running.contains((t, subkeys.last())) {
            rest
        } else {
            rest.push((t, subkeys.last()))
        }
    }
}

/// Every exclusive subscription without a running pump, topic by topic in
/// table order.
pub open spec fn exclusive_starts(
    tkeys: Seq<Seq<char>>,
    inners: Seq<StrMap<Subscriber>>,
    running: Seq<(Seq<char>, Seq<char>)>,
) -> Seq<(Seq<char>, Seq<char>)>
    decreases tkeys.len(),
{
    if tkeys.len() == 0 || inners.len() == 0 {
        Seq::empty()
    } else {
        exclusive_starts(tkeys.drop_last(), inners.drop_last(), running) + missing_in(
            tkeys.last(),
            inners.last().keys(),
            running,
        )
    }
}

/// Exclusive subscriptions that need a pump started.
pub fn exclusive_pumps_to_start(m: &SubscribeManager, running: &Vec<(String, String)>) -> (r: Vec<
    (String, String),
>)
    requires
        m.wf(),
    ensures
        pair_views(r@) == exclusive_starts(
            m.topic_subscribe.keys(),
            m.topic_subscribe.values(),
            pair_views(running@),
        ),
{
    let ghost tkeys = m.topic_subscribe.keys();
    let ghost inners = m.topic_subscribe.values();
    let ghost rv = pair_views(running@);
    let n = m.topic_subscribe.len();
    let mut out: Vec<(String, String)> = Vec::new();
    let mut i: usize = 0;
    while i < n
        invariant
            m.wf(),
            n == tkeys.len(),
            n == inners.len(),
            tkeys == m.topic_subscribe.keys(),
            inners == m.topic_subscribe.values(),
            rv == pair_views(running@),
            i <= n,
            pair_views(out@) == exclusive_starts(tkeys.subrange(0, i as int), inners.subrange(0, i as int), rv),
        decreases n - i,
    {
        proof {
            assert(tkeys.subrange(0, i + 1).drop_last() =~= tkeys.subrange(0, i as int));
            assert(inners.subrange(0, i + 1).drop_last() =~= inners.subrange(0, i as int));
        }
        let t = m.topic_subscribe.key_at(i);
        let inner = m.topic_subscribe.value_at(i);
        assert(inner.wf());
        let ghost base = out@;
        let ghost skeys = inner.keys();
        let sn = inner.len();
        let mut j: usize = 0;
        while j < sn
            invariant
                inner.wf(),
                sn == skeys.len(),
                skeys == inner.keys(),
                rv == pair_views(running@),
                j <= sn,
                pair_views(out@) == pair_views(base) + missing_in(t@, skeys.subrange(0, j as int), rv),
            decreases sn - j,
        {
            proof {
                assert(skeys.subrange(0, j + 1).drop_last() =~= skeys.subrange(0, j as int));
            }
            let k = inner.key_at(j);
            if !contains_pair(running, t, k) {
                let ghost before = out@;
                out.push((t.clone(), k.clone()));
                assert(pair_views(out@) =~= pair_views(before).push((t@, k@)));
            }
            j += 1;
        }
        assert(skeys.subrange(0, sn as int) =~= skeys);
        i += 1;
    }
    assert(tkeys.subrange(0, n as int) =~= tkeys);
    assert(inners.subrange(0, n as int) =~= inners);
    out
}

} // verus!
