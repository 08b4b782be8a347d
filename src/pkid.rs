use vstd::prelude::*;
use std::collections::HashMap;

verus! {

broadcast use vstd::std_specs::hash::group_hash_axioms;

/// Largest packet identifier; identifiers run from 1 to this value.
pub const MAX_PKID: u16 = 65535;

/// The `k`-th identifier tried after `last` (for `1 <= k <= 65535`): the
/// counter counts up from `last` and wraps from 65535 to 1.
pub open spec fn candidate(last: u16, k: nat) -> u16 {
    (((last as nat + k - 1) as nat % 65535) + 1) as u16
}

/// Per-client ledger of packet identifiers in flight, each with the time its
/// acknowledgement waiter was created.
pub struct PkidLedger {
    last: u16,
    in_flight: HashMap<u16, u64>,
}

impl PkidLedger {
    /// The identifiers in flight, each with the creation time of its waiter.
    pub closed spec fn view(&self) -> Map<u16, u64> {
        self.in_flight@
    }

    /// The identifier allocated last (0 before the first).
    pub closed spec fn last(&self) -> u16 {
        self.last
    }

    pub open spec fn wf(&self) -> bool {
        forall|p: u16| #[trigger] self@.contains_key(p) ==> 1 <= p
    }

    pub fn new() -> (r: Self)
        ensures
            r.wf(),
            r@ == Map::<u16, u64>::empty(),
            r.last() == 0,
    {
        PkidLedger { last: 0, in_flight: HashMap::new() }
    }

    pub fn contains(&self, pkid: u16) -> (r: bool)
        ensures
            r == self@.contains_key(pkid),
    {
        self.in_flight.contains_key(&pkid)
    }

    pub fn in_flight_count(&self) -> (r: usize)
        ensures
            r == self@.len(),
    {
        self.in_flight.len()
    }

    /// Allocates the next free identifier after the last one, wrapping from
    /// 65535 to 1 and skipping identifiers in flight, and registers its
    /// waiter created at `now`. `None` when all 65535 are in flight.
    pub fn allocate(&mut self, now: u64) -> (r: Option<u16>)
        requires
            old(self).wf(),
        ensures
            final(self).wf(),
            r is None <==> forall|p: u16| 1 <= p ==> #[trigger] old(self)@.contains_key(p),
            r is None ==> *final(self) == *old(self),
            r matches Some(p) ==> {
                &&& !old(self)@.contains_key(p)
                &&& 1 <= p
                &&& final(self)@ == old(self)@.insert(p, now)
                &&& final(self).last() == p
                &&& exists|k: nat|
                    1 <= k <= 65535 && p == candidate(old(self).last(), k) && forall|j: nat|
                        1 <= j < k ==> old(self)@.contains_key(#[trigger] candidate(old(self).last(), j))
            },
    {
        let mut k: u32 = 1;
        while k <= 65535
            invariant
                1 <= k <= 65536,
                *self == *old(self),
                self.wf(),
                forall|j: nat| 1 <= j < k ==> self@.contains_key(#[trigger] candidate(self.last, j)),
            decreases 65536 - k,
        {
            let p: u16 = (((self.last as u32 + k - 1) % 65535) + 1) as u16;
            assert(p == candidate(self.last, k as nat));
            if !self.in_flight.contains_key(&p) {
                assert(!old(self)@.contains_key(p));
                assert(1 <= p);
                let ghost kk = k as nat;
                assert(1 <= kk <= 65535 && p == candidate(old(self).last(), kk) && forall|j: nat|
                    1 <= j < kk ==> old(self)@.contains_key(#[trigger] candidate(old(self).last(), j)));
                self.in_flight.insert(p, now);
                assert(self@ == old(self)@.insert(p, now));
                assert forall|q: u16| #[trigger] self@.contains_key(q) implies 1 <= q by {
                    if q != p {
                        assert(old(self)@.contains_key(q));
                    }
                };
                self.last = p;
                return Some(p);
            }
            k += 1;
        }
        proof {
            assert forall|p: u16| 1 <= p implies #[trigger] old(self)@.contains_key(p) by {
                let j: nat = if p as nat > self.last as nat {
                    (p - self.last) as nat
                } else {
                    (p as nat + 65535 - self.last as nat) as nat
                };
                assert(1 <= j <= 65535);
                assert(candidate(self.last, j) == p);
            };
        }
        None
    }

    /// Frees `pkid` and drops its waiter; true if it was in flight.
    pub fn release(&mut self, pkid: u16) -> (r: bool)
        requires
            old(self).wf(),
        ensures
            final(self).wf(),
            r == old(self)@.contains_key(pkid),
            final(self)@ == old(self)@.remove(pkid),
            final(self).last() == old(self).last(),
    {
        let r = self.in_flight.remove(&pkid).is_some();
        assert forall|q: u16| #[trigger] self@.contains_key(q) implies 1 <= q by {
            assert(old(self)@.contains_key(q));
        };
        r
    }
}

/// A ledger never holds more than 65535 identifiers in flight, and each
/// identifier in flight has exactly one waiter (its single entry).
pub proof fn lemma_in_flight_bound(ledger: PkidLedger)
    requires
        ledger.wf(),
    ensures
        ledger@.len() <= 65535,
        forall|p: u16| #[trigger] ledger@.contains_key(p) ==> 1 <= p <= 65535,
{
    let dom = ledger@.dom();
    let range = Set::<u16>::range(1, 65535).insert(65535);
    vstd::set_lib::range_set_properties::<u16>(1, 65535);
    assert(dom.subset_of(range));
    vstd::set_lib::lemma_len_subset(dom, range);
}

} // verus!
