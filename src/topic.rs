use vstd::prelude::*;
use vstd::string::*;

verus! {

/// Length of the first level of `t`: the characters before the first '/'.
pub open spec fn level_len(t: Seq<char>) -> nat
    decreases t.len(),
{
    if t.len() == 0 || t[0] == '/' {
        0
    } else {
        1 + level_len(t.drop_first())
    }
}

/// MQTT topic filter matching: `+` matches one whole level, a final `#`
/// matches any remaining levels (including none, so `a/#` matches `a`), and
/// any other character matches itself.
pub open spec fn topic_matches(f: Seq<char>, t: Seq<char>) -> bool
    decreases f.len(),
{
    if f.len() == 0 {
        t.len() == 0
    } else if f[0] == '#' {
        f.len() == 1
    } else if f[0] == '+' {
        topic_matches(f.drop_first(), t.subrange(level_len(t) as int, t.len() as int))
    } else if t.len() == 0 {
        f == seq!['/', '#']
    } else {
        f[0] == t[0] && topic_matches(f.drop_first(), t.drop_first())
    }
}

proof fn lemma_level_len_bound(t: Seq<char>)
    ensures
        level_len(t) <= t.len(),
        level_len(t) < t.len() ==> t[level_len(t) as int] == '/',
        forall|k: int| 0 <= k < level_len(t) ==> t[k] != '/',
    decreases t.len(),
{
    if t.len() > 0 && t[0] != '/' {
        lemma_level_len_bound(t.drop_first());
        assert forall|k: int| 0 <= k < level_len(t) implies t[k] != '/' by {
            if k > 0 {
                assert(t[k] == t.drop_first()[k - 1]);
            }
        };
    }
}

proof fn lemma_level_len_step(t: Seq<char>, j: int, m: int)
    requires
        0 <= j < m == t.len(),
        t[j] != '/',
    ensures
        level_len(t.subrange(j, m)) == 1 + level_len(t.subrange(j + 1, m)),
{
    assert(t.subrange(j, m).drop_first() =~= t.subrange(j + 1, m));
}

/// The characters of a string, one by one.
pub fn chars_of(s: &String) -> (r: Vec<char>)
    ensures
        r@ == s@,
{
    let n = s.as_str().unicode_len();
    let mut out: Vec<char> = Vec::new();
    let mut i: usize = 0;
    while i < n
        invariant
            n == s@.len(),
            i <= n,
            out@ == s@.subrange(0, i as int),
        decreases n - i,
    {
        out.push(s.as_str().get_char(i));
        assert(out@ =~= s@.subrange(0, i + 1));
        i += 1;
    }
    assert(out@ =~= s@);
    out
}

/// Whether topic `topic` matches subscription filter `filter`.
pub fn is_topic_match(filter: &String, topic: &String) -> (r: bool)
    ensures
        r == topic_matches(filter@, topic@),
{
    let fs = chars_of(filter);
    let ts = chars_of(topic);
    let n = fs.len();
    let m = ts.len();
    let mut i: usize = 0;
    let mut j: usize = 0;
    assert(fs@.subrange(0, n as int) =~= filter@);
    assert(ts@.subrange(0, m as int) =~= topic@);
    while i < n
        invariant
            n == fs@.len(),
            m == ts@.len(),
            i <= n,
            j <= m,
            topic_matches(filter@, topic@) == topic_matches(
                fs@.subrange(i as int, n as int),
                ts@.subrange(j as int, m as int),
            ),
        decreases n - i,
    {
        let ghost fr = fs@.subrange(i as int, n as int);
        let ghost tr = ts@.subrange(j as int, m as int);
        assert(fr[0] == fs@[i as int]);
        assert(fr.drop_first() =~= fs@.subrange(i + 1, n as int));
        let c = fs[i];
        if c == '#' {
            return i + 1 == n;
        }
        if c == '+' {
            let j0 = j;
            while j < m && ts[j] != '/'
                invariant
                    m == ts@.len(),
                    j0 <= j <= m,
                    level_len(ts@.subrange(j0 as int, m as int)) == (j - j0) + level_len(
                        ts@.subrange(j as int, m as int),
                    ),
                decreases m - j,
            {
                proof {
                    lemma_level_len_step(ts@, j as int, m as int);
                }
                j += 1;
            }
            proof {
                if j < m {
                    assert(ts@.subrange(j as int, m as int)[0] == '/');
                }
                assert(level_len(ts@.subrange(j as int, m as int)) == 0);
                assert(tr.subrange(level_len(tr) as int, tr.len() as int) =~= ts@.subrange(
                    j as int,
                    m as int,
                ));
            }
            i += 1;
        } else if j == m {
            proof {
                assert(tr.len() == 0);
            }
            if n - i == 2 && fs[i] == '/' && fs[i + 1] == '#' {
                assert(fr =~= seq!['/', '#']);
                return true;
            }
            return false;
        } else {
            assert(tr[0] == ts@[j as int]);
            if c != ts[j] {
                return false;
            }
            assert(tr.drop_first() =~= ts@.subrange(j + 1, m as int));
            i += 1;
            j += 1;
        }
    }
    j == m
}

/// Group given to `$queue/` subscriptions.
pub open spec fn queue_group() -> Seq<char> {
    "default"@
}

/// How a subscription filter is read.
#[derive(Clone, Debug, PartialEq, Eq)]
pub enum FilterKind {
    /// A plain filter.
    Exclusive,
    /// `$share/<group>/<path>` or `$queue/<path>`.
    Shared { group: String, path: String },
    /// `$share/` without a group and a path.
    Invalid,
}

/// A classified filter, over plain sequences.
pub enum FilterSpec {
    Exclusive,
    Shared(Seq<char>, Seq<char>),
    Invalid,
}

/// How a filter is classified: `$share/<group>/<path>` with a non-empty
/// group and a path, `$queue/<path>` in the default group, or a plain filter.
pub open spec fn filter_spec(p: Seq<char>) -> FilterSpec {
    if p.len() >= 7 && p.subrange(0, 7) == "$share/"@ {
        let rest = p.subrange(7, p.len() as int);
        let g = level_len(rest);
        if 0 < g < rest.len() {
            FilterSpec::Shared(rest.subrange(0, g as int), rest.subrange(g as int + 1, rest.len() as int))
        } else {
            FilterSpec::Invalid
        }
    } else if p.len() >= 7 && p.subrange(0, 7) == "$queue/"@ {
        FilterSpec::Shared(queue_group(), p.subrange(7, p.len() as int))
    } else {
        FilterSpec::Exclusive
    }
}

impl FilterKind {
    pub open spec fn view(&self) -> FilterSpec {
        match self {
            FilterKind::Exclusive => FilterSpec::Exclusive,
            FilterKind::Shared { group, path } => FilterSpec::Shared(group@, path@),
            FilterKind::Invalid => FilterSpec::Invalid,
        }
    }
}

/// Classifies a subscription filter as exclusive or shared.
pub fn parse_filter(p: &String) -> (r: FilterKind)
    ensures
        r@ == filter_spec(p@),
{
    let n = p.as_str().unicode_len();
    if n >= 7 {
        let head = p.as_str().substring_char(0, 7);
        let share = String::from_str("$share/");
        let queue = String::from_str("$queue/");
        let head_s = String::from_str(head);
        if head_s == share {
            let rest = String::from_str(p.as_str().substring_char(7, n));
            let rs = chars_of(&rest);
            let rn = rs.len();
            let mut g: usize = 0;
            assert(rs@.subrange(0, rn as int) =~= rs@);
            while g < rn && rs[g] != '/'
                invariant
                    rn == rs@.len(),
                    g <= rn,
                    level_len(rs@) == g + level_len(rs@.subrange(g as int, rn as int)),
                decreases rn - g,
            {
                proof {
                    lemma_level_len_step(rs@, g as int, rn as int);
                }
                g += 1;
            }
            proof {
                if g < rn {
                    assert(rs@.subrange(g as int, rn as int)[0] == '/');
                }
                assert(rs@.subrange(0, rn as int) =~= rs@);
            }
            if 0 < g && g < rn {
                let group = String::from_str(rest.as_str().substring_char(0, g));
                let path = String::from_str(rest.as_str().substring_char(g + 1, rn));
                return FilterKind::Shared { group, path };
            }
            return FilterKind::Invalid;
        }
        if head_s == queue {
            let path = String::from_str(p.as_str().substring_char(7, n));
            let group = String::from_str("default");
            proof {
                reveal_strlit("default");
            }
            return FilterKind::Shared { group, path };
        }
    }
    FilterKind::Exclusive
}

} // verus!
