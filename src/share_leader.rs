use vstd::prelude::*;
use vstd::arithmetic::div_mod::{lemma_fundamental_div_mod, lemma_fundamental_div_mod_converse};

verus! {

/// Records read per batch by a shared group's pump: five per member, but at
/// least 100 and at most 1000.
pub open spec fn record_num_spec(sub_len: nat) -> nat {
    let n = sub_len * 5;
    if n < 100 {
        100
    } else if n > 1000 {
        1000
    } else {
        n
    }
}

pub fn calc_record_num(sub_len: usize) -> (r: usize)
    ensures
        r == record_num_spec(sub_len as nat),
{
    if sub_len > 200 {
        return 1000;
    }
    let num = sub_len * 5;
    if num < 100 {
        100
    } else {
        num
    }
}

/// What the pump of a shared group does next for the record at hand.
#[derive(Clone, Copy, Debug, PartialEq, Eq, Structural)]
pub enum Pick {
    /// The member list is empty: wait briefly, then reload it.
    Wait,
    /// The cursor has walked off the member list: reload it.
    Refresh,
    /// Offer the record to the member at this index.
    Deliver(usize),
    /// Every member has had its chance: drop the record, committing its offset.
    GiveUp,
}

/// How an offer of a record to one member ended.
#[derive(Clone, Copy, Debug, PartialEq, Eq, Structural)]
pub enum DeliveryOutcome {
    /// QoS 0 written, QoS 1 PUBACK or QoS 2 PUBREC matched.
    Delivered,
    /// The no-local option dropped the record for this member.
    Skipped,
    /// Timeout, send error or missing connection.
    Failed,
}

/// What becomes of the record after an offer.
#[derive(Clone, Copy, Debug, PartialEq, Eq, Structural)]
pub enum RecordFate {
    /// The record is consumed: commit its offset and go on with the next one.
    Commit,
    /// Offer the record to the next member.
    Retry,
}

/// Round-robin state of a shared group's pump: the index of the next member
/// and the failed offers of the current record.
#[derive(Clone, Copy, Debug, PartialEq, Eq, Structural)]
pub struct ShareCursor {
    pub cursor: usize,
    pub attempts: usize,
}

/// The step `pick` takes, given the size of the member list it sees.
pub open spec fn pick_spec(s: ShareCursor, members: usize) -> (Pick, ShareCursor) {
    if members == 0 {
        (Pick::Wait, ShareCursor { cursor: 0, attempts: s.attempts })
    } else if s.cursor >= members {
        (Pick::Refresh, ShareCursor { cursor: 0, attempts: s.attempts })
    } else if s.attempts > members {
        (Pick::GiveUp, ShareCursor { cursor: s.cursor, attempts: 0 })
    } else {
        (Pick::Deliver(s.cursor), ShareCursor { cursor: (s.cursor + 1) as usize, attempts: s.attempts })
    }
}

/// The step `on_delivery` takes.
pub open spec fn outcome_spec(s: ShareCursor, outcome: DeliveryOutcome) -> (RecordFate, ShareCursor) {
    match outcome {
        DeliveryOutcome::Failed => (
            RecordFate::Retry,
            ShareCursor {
                cursor: s.cursor,
                attempts: if s.attempts < usize::MAX { (s.attempts + 1) as usize } else { s.attempts },
            },
        ),
        _ => (RecordFate::Commit, ShareCursor { cursor: s.cursor, attempts: 0 }),
    }
}

impl ShareCursor {
    pub fn new() -> (r: Self)
        ensures
            r.cursor == 0,
            r.attempts == 0,
    {
        ShareCursor { cursor: 0, attempts: 0 }
    }

    /// Chooses the next step for the current record; `members` is the length
    /// of the member list the pump holds now. After `Wait` or `Refresh` the
    /// pump reloads the list and asks again.
    pub fn pick(&mut self, members: usize) -> (r: Pick)
        ensures
            (r, *final(self)) == pick_spec(*old(self), members),
    {
        if members == 0 {
            self.cursor = 0;
            Pick::Wait
        } else if self.cursor >= members {
            self.cursor = 0;
            Pick::Refresh
        } else if self.attempts > members {
            self.attempts = 0;
            Pick::GiveUp
        } else {
            let c = self.cursor;
            self.cursor = c + 1;
            Pick::Deliver(c)
        }
    }

    /// Records how the last offer ended.
    pub fn on_delivery(&mut self, outcome: DeliveryOutcome) -> (r: RecordFate)
        ensures
            (r, *final(self)) == outcome_spec(*old(self), outcome),
    {
        match outcome {
            DeliveryOutcome::Failed => {
                if self.attempts < usize::MAX {
                    self.attempts = self.attempts + 1;
                }
                RecordFate::Retry
            },
            _ => {
                self.attempts = 0;
                RecordFate::Commit
            },
        }
    }
}

/// The member that receives a record and the cursor left behind, when the
/// pump starts the record at `cursor` with `k > 0` members and the first offer
/// succeeds.
pub open spec fn serve(cursor: nat, k: nat) -> (nat, nat) {
    if cursor < k {
        (cursor, cursor + 1)
    } else {
        (0, 1)
    }
}

/// The member that receives the `j`-th of a run of records delivered without
/// failures, starting from `cursor`.
pub open spec fn rr_member(cursor: nat, k: nat, j: nat) -> nat
    decreases j,
{
    if j == 0 {
        serve(cursor, k).0
    } else {
        rr_member(serve(cursor, k).1, k, (j - 1) as nat)
    }
}

/// How many of the first `n` records of such a run member `i` receives.
pub open spec fn rr_count(cursor: nat, k: nat, n: nat, i: nat) -> nat
    decreases n,
{
    if n == 0 {
        0
    } else {
        rr_count(cursor, k, (n - 1) as nat, i) + if rr_member(cursor, k, (n - 1) as nat) == i {
            1nat
        } else {
            0nat
        }
    }
}

/// Starting a record with no failed offer yet and `k > 0` members, `pick`
/// offers it to `serve(cursor, k).0` (after at most one reload of an unchanged
/// list), and a successful offer commits it and leaves the cursor at
/// `serve(cursor, k).1`.
pub proof fn lemma_pick_serves(s: ShareCursor, k: usize)
    requires
        k > 0,
        s.attempts == 0,
    ensures
        ({
            let (first, s1) = pick_spec(s, k);
            let (second, s2) = pick_spec(s1, k);
            let (member, next) = serve(s.cursor as nat, k as nat);
            let after = if first is Refresh { s2 } else { s1 };
            let offered = if first is Refresh { second } else { first };
            &&& offered == Pick::Deliver(member as usize)
            &&& outcome_spec(after, DeliveryOutcome::Delivered) == (
                RecordFate::Commit,
                ShareCursor { cursor: next as usize, attempts: 0 },
            )
        }),
{
}

/// Closed form of the number of `x < m` with `x % k == i`.
proof fn lemma_hits(m: nat, k: nat, i: nat)
    requires
        k > 0,
        i < k,
    ensures
        hits(m, k, i) == m / k + if m % k > i { 1nat } else { 0nat },
    decreases m,
{
    if m == 0 {
        vstd::arithmetic::div_mod::lemma_small_mod(0, k);
        vstd::arithmetic::div_mod::lemma_basic_div(0, k as int);
    } else {
        let p = (m - 1) as nat;
        lemma_hits(p, k, i);
        lemma_fundamental_div_mod(p as int, k as int);
        let q = p / k;
        let r = p % k;
        assert(hits(m, k, i) == hits(p, k, i) + if r == i { 1nat } else { 0nat });
        if r + 1 < k {
            lemma_fundamental_div_mod_converse(m as int, k as int, q as int, (r + 1) as int);
            assert(m / k == q && m % k == r + 1);
        } else {
            assert(m == (q + 1) * k + 0) by (nonlinear_arith)
                requires
                    p == q * k + r,
                    r + 1 == k,
                    m == p + 1,
            ;
            lemma_fundamental_div_mod_converse(m as int, k as int, (q + 1) as int, 0);
            assert(m / k == q + 1 && m % k == 0);
        }
    }
}

/// Number of `x < m` with `x % k == i`.
pub open spec fn hits(m: nat, k: nat, i: nat) -> nat
    decreases m,
{
    if m == 0 {
        0
    } else {
        hits((m - 1) as nat, k, i) + if ((m - 1) as nat) % k == i {
            1nat
        } else {
            0nat
        }
    }
}

proof fn lemma_rr_member(cursor: nat, k: nat, j: nat)
    requires
        k > 0,
    ensures
        rr_member(cursor, k, j) == (serve(cursor, k).0 + j) % k,
    decreases j,
{
    let s = serve(cursor, k).0;
    if j == 0 {
        vstd::arithmetic::div_mod::lemma_small_mod(s, k);
    } else {
        lemma_rr_member(serve(cursor, k).1, k, (j - 1) as nat);
        let t = serve(cursor, k).1;
        if t < k {
            assert(serve(t, k).0 == s + 1);
        } else {
            assert(s + 1 == k);
            assert(serve(t, k).0 == 0);
            vstd::arithmetic::div_mod::lemma_mod_add_multiples_vanish((j - 1) as int, k as int);
            assert((s + j) as int == k + (j - 1));
        }
    }
}

proof fn lemma_rr_count_hits(cursor: nat, k: nat, n: nat, i: nat)
    requires
        k > 0,
        i < k,
    ensures
        rr_count(cursor, k, n, i) + hits(serve(cursor, k).0, k, i) == hits(
            serve(cursor, k).0 + n,
            k,
            i,
        ),
    decreases n,
{
    if n > 0 {
        lemma_rr_count_hits(cursor, k, (n - 1) as nat, i);
        lemma_rr_member(cursor, k, (n - 1) as nat);
    }
}

/// Fairness of the shared-group pump: over a run of `n` records delivered
/// without failures to a fixed list of `k > 0` members, each member receives
/// `n / k` or `n / k + 1` of them, so no member's share differs from `n / k`
/// by more than one.
pub proof fn lemma_share_fairness(cursor: nat, k: nat, n: nat, i: nat)
    requires
        k > 0,
        i < k,
    ensures
        n / k <= rr_count(cursor, k, n, i) <= n / k + 1,
        rr_count(cursor, k, n, i) - n / k <= 1,
        n / k - rr_count(cursor, k, n, i) <= 1,
{
    let s = serve(cursor, k).0;
    lemma_rr_count_hits(cursor, k, n, i);
    lemma_hits(s, k, i);
    lemma_hits(s + n, k, i);
    vstd::arithmetic::div_mod::lemma_small_mod(s, k);
    vstd::arithmetic::div_mod::lemma_basic_div(s as int, k as int);
    lemma_fundamental_div_mod(n as int, k as int);
    let q = n / k;
    let r = n % k;
    if s + r < k {
        lemma_fundamental_div_mod_converse((s + n) as int, k as int, q as int, (s + r) as int);
    } else {
        assert(s + n == (q + 1) * k + (s + r - k)) by (nonlinear_arith)
            requires
                n == q * k + r,
        ;
        lemma_fundamental_div_mod_converse(
            (s + n) as int,
            k as int,
            (q + 1) as int,
            (s + r - k) as int,
        );
    }
}

} // verus!
