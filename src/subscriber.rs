//! The reminder a subscribed student gets before an English colle: which
//! colle it is about, when it is due, and its text.
use vstd::prelude::*;
use crate::colle::{colle_text, is_subject, unix_seconds, Colle, ColleStringFormat, ColleView};
use crate::group::{colle_views, first_n, upcoming, GroupId};
use crate::guild_data::{first_group, GuildData};
use crate::text::{decimal_text, push_decimal};

verus! {

/// How many hours before its start a colle is worth a reminder.
pub const MIN_HOUR_DIFF: i64 = 30;

/// How many of a group's next colles are looked at for a reminder.
pub const LOOKAHEAD: usize = 4;

/// The first colle of `cs` whose subject letter is `subject`.
pub open spec fn first_of_subject(cs: Seq<ColleView>, subject: char) -> Option<ColleView>
    decreases cs.len(),
{
    if cs.len() == 0 {
        None
    } else {
        match first_of_subject(cs.drop_last(), subject) {
            Some(c) => Some(c),
            None => if cs.last().id.0 == subject {
                Some(cs.last())
            } else {
                None
            },
        }
    }
}

proof fn lemma_first_of_subject_prefix(cs: Seq<ColleView>, subject: char, i: int)
    requires
        0 <= i <= cs.len(),
        first_of_subject(cs.subrange(0, i), subject) is Some,
    ensures
        first_of_subject(cs, subject) == first_of_subject(cs.subrange(0, i), subject),
    decreases cs.len(),
{
    if i < cs.len() {
        assert(cs.drop_last().subrange(0, i) =~= cs.subrange(0, i));
        lemma_first_of_subject_prefix(cs.drop_last(), subject, i);
    } else {
        assert(cs.subrange(0, i) =~= cs);
    }
}

/// The text of a reminder to the user `user_id` about colle `c`.
pub open spec fn reminder_text(user_id: u64, c: ColleView) -> Seq<char> {
    "<@"@ + decimal_text(user_id as nat) + ">, n'oublie pas ton carnet de colle pour ta colle "@
        + colle_text(c, ColleStringFormat::Explicit)
}

/// What a subscribed user follows: one group's English colles.
#[derive(Debug, Clone, Copy, PartialEq, Eq, Structural)]
pub struct SubscriberData {
    pub group_id: GroupId,
}

impl SubscriberData {
    pub fn new_default(group_id: GroupId) -> (r: Self)
        ensures
            r.group_id == group_id,
    {
        SubscriberData { group_id }
    }

    /// The English colle among the group's next four colles after `now`
    /// (seconds since 1970-01-01T00:00:00Z), if there is one.
    pub fn get_predicate<'a>(&self, guild_data: &'a GuildData, now: i64) -> (r: Option<&'a Colle>)
        ensures
            first_group(guild_data.groups@, self.group_id) is None ==> r is None,
            first_group(guild_data.groups@, self.group_id) matches Some(g) ==> ({
                let found = first_of_subject(
                    first_n(upcoming(colle_views(g.colles@), now as int), LOOKAHEAD as int),
                    'A',
                );
                &&& r matches Some(c) ==> found == Some(c@)
                &&& r is None ==> found is None
            }),
    {
        let group = match guild_data.get_group(self.group_id) {
            Some(g) => g,
            None => return None,
        };
        let next = group.next_instances(now, LOOKAHEAD);
        let ghost nv = next@.map_values(|c: &Colle| c@);
        assert(first_group(guild_data.groups@, self.group_id) == Some(*group));
        assert(nv == first_n(upcoming(colle_views(group.colles@), now as int), LOOKAHEAD as int));
        let mut i: usize = 0;
        assert(nv.subrange(0, 0) =~= Seq::<ColleView>::empty());
        while i < next.len()
            invariant
                i <= next@.len(),
                nv == next@.map_values(|c: &Colle| c@),
                nv == first_n(upcoming(colle_views(group.colles@), now as int), LOOKAHEAD as int),
                first_group(guild_data.groups@, self.group_id) == Some(*group),
                first_of_subject(nv.subrange(0, i as int), 'A') is None,
            decreases next@.len() - i,
        {
            assert(nv.subrange(0, i + 1).drop_last() =~= nv.subrange(0, i as int));
            if next[i].id.0 == 'A' {
                proof {
                    lemma_first_of_subject_prefix(nv, 'A', i + 1);
                    assert(nv.subrange(0, i + 1).last() == nv[i as int]);
                    assert(first_of_subject(nv, 'A') == Some(nv[i as int]));
                }
                let c: &Colle = next[i];
                assert(c@ == nv[i as int]);
                return Some(c);
            }
            i = i + 1;
        }
        assert(nv.subrange(0, next@.len() as int) =~= nv);
        None
    }

    /// Whether colle `c` starts less than thirty hours after `now`.
    pub fn should_make_message(&self, c: &Colle, now: i64) -> (r: bool)
        ensures
            r == (unix_seconds(c@.day, c@.start_hour) - now < MIN_HOUR_DIFF * 3600),
    {
        let start = c.start_unix();
        (start as i128) - (now as i128) < (MIN_HOUR_DIFF as i128) * 3600
    }

    /// The reminder sent to user `user_id` about colle `c`.
    pub fn create_message(&self, user_id: u64, c: &Colle) -> (r: String)
        requires
            is_subject(c.id.0),
        ensures
            r@ == reminder_text(user_id, c@),
    {
        let mut s = "<@".to_owned();
        push_decimal(&mut s, user_id);
        s.append(">, n'oublie pas ton carnet de colle pour ta colle ");
        s.append(c.format(ColleStringFormat::Explicit).as_str());
        s
    }
}

} // verus!
