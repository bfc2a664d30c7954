//! A group's chronologically ordered colles, and the queries on them.
use vstd::prelude::*;
use vstd::multiset::Multiset;
use crate::colle::{start_key, unix_seconds, Colle, ColleView};

verus! {

broadcast use vstd::seq_lib::group_to_multiset_ensures;

pub type GroupId = usize;

/// The plain values of a sequence of colles.
pub open spec fn colle_views(s: Seq<Colle>) -> Seq<ColleView> {
    s.map_values(|c: Colle| c@)
}

/// Ascending by start.
pub open spec fn sorted_by_start(s: Seq<ColleView>) -> bool {
    forall|i: int, j: int| 0 <= i < j < s.len() ==> start_key(s[i]) <= start_key(s[j])
}

/// Whether the colle ends strictly after the instant `now` (seconds since
/// 1970-01-01T00:00:00Z).
pub open spec fn ends_after(c: ColleView, now: int) -> bool {
    unix_seconds(c.day, c.end_hour) > now
}

/// The colles of `s` that end after `now`, in the order of `s`.
pub open spec fn upcoming(s: Seq<ColleView>, now: int) -> Seq<ColleView>
    decreases s.len(),
{
    if s.len() == 0 {
        seq![]
    } else if ends_after(s.last(), now) {
        upcoming(s.drop_last(), now).push(s.last())
    } else {
        upcoming(s.drop_last(), now)
    }
}

/// The first `n` items of `s`, or all of them when there are fewer.
pub open spec fn first_n<A>(s: Seq<A>, n: int) -> Seq<A> {
    if s.len() <= n {
        s
    } else {
        s.subrange(0, n)
    }
}

proof fn lemma_insert_multiset<A>(s: Seq<A>, pos: int, x: A)
    requires
        0 <= pos <= s.len(),
    ensures
        s.insert(pos, x).to_multiset() =~= s.to_multiset().insert(x),
{
    let t = s.insert(pos, x);
    assert(t.remove(pos) =~= s);
    assert(t[pos] == x);
    assert(t.contains(x));
    assert(t.to_multiset().count(x) > 0);
    assert(s.to_multiset() =~= t.to_multiset().remove(x));
}

/// The colles of `v`, reordered ascending by start.
pub fn sort_by_start(v: Vec<Colle>) -> (r: Vec<Colle>)
    ensures
        sorted_by_start(colle_views(r@)),
        colle_views(r@).to_multiset() == colle_views(v@).to_multiset(),
{
    let mut src = v;
    let mut out: Vec<Colle> = Vec::new();
    assert(colle_views(out@).to_multiset() =~= Multiset::empty());
    while src.len() > 0
        invariant
            sorted_by_start(colle_views(out@)),
            colle_views(out@).to_multiset().add(colle_views(src@).to_multiset())
                == colle_views(v@).to_multiset(),
        decreases src@.len(),
    {
        let ghost before_src = src@;
        let c = src.pop().unwrap();
        assert(colle_views(before_src) =~= colle_views(src@).push(c@));
        let key = c.start_key();
        let mut pos: usize = 0;
        while pos < out.len() && out[pos].start_key() <= key
            invariant
                pos <= out@.len(),
                key == start_key(c@),
                forall|k: int| 0 <= k < pos ==> start_key(#[trigger] out@[k]@) <= start_key(c@),
            decreases out@.len() - pos,
        {
            pos = pos + 1;
        }
        let ghost before = colle_views(out@);
        out.insert(pos, c);
        assert(colle_views(out@) =~= before.insert(pos as int, c@));
        proof {
            lemma_insert_multiset(before, pos as int, c@);
            let s = colle_views(out@);
            assert forall|i: int, j: int| 0 <= i < j < s.len() implies start_key(s[i]) <= start_key(
                s[j],
            ) by {
                if j < pos {
                    assert(s[i] == before[i] && s[j] == before[j]);
                } else if j == pos {
                    assert(s[i] == out@[i]@);
                } else if i < pos {
                    assert(s[i] == before[i]);
                    assert(s[j] == before[j - 1]);
                    assert(start_key(before[pos as int]) > start_key(c@));
                    if pos < j - 1 {
                        assert(start_key(before[pos as int]) <= start_key(before[j - 1]));
                    }
                } else if i == pos {
                    assert(s[j] == before[j - 1]);
                    assert(start_key(before[pos as int]) > start_key(c@));
                    if pos < j - 1 {
                        assert(start_key(before[pos as int]) <= start_key(before[j - 1]));
                    }
                } else {
                    assert(s[i] == before[i - 1] && s[j] == before[j - 1]);
                }
            }
        }
    }
    assert(colle_views(src@).to_multiset() =~= Multiset::empty());
    assert(colle_views(out@).to_multiset().add(Multiset::empty()) =~= colle_views(out@).to_multiset());
    out
}

/// Relies on `time::OffsetDateTime::now_utc` and `unix_timestamp`: the
/// current instant, in seconds since 1970-01-01T00:00:00Z. Nothing is known
/// of its value.
#[verifier::external_body]
fn now_unix() -> (r: i64) {
    time::OffsetDateTime::now_utc().unix_timestamp()
}

/// A group of students and its colles, ascending by start.
#[derive(Debug)]
pub struct Group {
    pub guild_id: u64,
    pub id: GroupId,
    pub colles: Vec<Colle>,
}

impl Group {
    /// The first `limit` colles that end after `now`, in order; all of them
    /// when fewer than `limit` do.
    pub fn next_instances(&self, now: i64, limit: usize) -> (r: Vec<&Colle>)
        ensures
            r@.map_values(|c: &Colle| c@) == first_n(
                upcoming(colle_views(self.colles@), now as int),
                limit as int,
            ),
            r@.len() == if upcoming(colle_views(self.colles@), now as int).len() < limit {
                upcoming(colle_views(self.colles@), now as int).len() as int
            } else {
                limit as int
            },
    {
        let mut out: Vec<&Colle> = Vec::new();
        let mut i: usize = 0;
        while i < self.colles.len()
            invariant
                i <= self.colles@.len(),
                out@.map_values(|c: &Colle| c@) == first_n(
                    upcoming(colle_views(self.colles@.subrange(0, i as int)), now as int),
                    limit as int,
                ),
            decreases self.colles@.len() - i,
        {
            let ghost pre = colle_views(self.colles@.subrange(0, i as int));
            let ghost next = colle_views(self.colles@.subrange(0, i + 1));
            assert(next.drop_last() =~= pre);
            assert(next.last() == self.colles@[i as int]@);
            let c = &self.colles[i];
            if c.end_unix() > now {
                if out.len() < limit {
                    let ghost before = out@.map_values(|c: &Colle| c@);
                    out.push(c);
                    assert(out@.map_values(|c: &Colle| c@) =~= before.push(c@));
                } else {
                    assert(first_n(upcoming(next, now as int), limit as int) =~= first_n(
                        upcoming(pre, now as int),
                        limit as int,
                    ));
                }
            }
            i = i + 1;
        }
        assert(self.colles@.subrange(0, self.colles@.len() as int) =~= self.colles@);
        out
    }

    /// The first `limit` colles that have not ended yet, in order.
    pub fn get_next_colles(&self, limit: usize) -> (r: Vec<&Colle>)
        ensures
            exists|now: int|
                r@.map_values(|c: &Colle| c@) == #[trigger] first_n(
                    upcoming(colle_views(self.colles@), now),
                    limit as int,
                ),
    {
        let now = now_unix();
        let r = self.next_instances(now, limit);
        assert(r@.map_values(|c: &Colle| c@) == first_n(
            upcoming(colle_views(self.colles@), now as int),
            limit as int,
        ));
        r
    }
}

} // verus!
