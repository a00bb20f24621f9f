//! SWIM-style membership: members are alive, suspected or dead; newer
//! incarnations override older news, and a suspect that stays silent past
//! the timeout is declared dead.
use vstd::prelude::*;
use std::time::{Duration, Instant};
use crate::collections::{StrMap, lemma_entry_in_map, string_views};

verus! {

#[verifier::external_type_specification]
#[verifier::external_body]
pub struct ExInstant(std::time::Instant);

/// The current time of the monotonic clock (`Instant::now`). Nothing is
/// stated of the value: it depends on when the call is made.
#[verifier::external_body]
fn instant_now() -> Instant {
    Instant::now()
}

/// `Instant::duration_since`. Nothing is stated of the value: `Instant` and
/// `Duration` are opaque here.
#[verifier::external_body]
fn instant_duration_since(later: &Instant, earlier: &Instant) -> Duration {
    later.duration_since(*earlier)
}

/// `Duration::as_nanos`. Nothing is stated of the value: `Duration` is opaque here.
#[verifier::external_body]
fn duration_as_nanos(d: &Duration) -> u128 {
    d.as_nanos()
}

#[derive(Debug, Clone, Copy, PartialEq, Eq, Structural)]
pub enum NodeStatus {
    Alive,
    Suspect,
    Dead,
}

#[derive(Debug)]
pub struct NodeRecord {
    pub id: String,
    pub status: NodeStatus,
    pub incarnation: u64,
    /// When the record was last updated, in nanoseconds since the
    /// protocol's clock origin.
    pub last_update: u128,
}

impl Clone for NodeRecord {
    fn clone(&self) -> (r: NodeRecord)
        ensures
            r == *self,
    {
        NodeRecord {
            id: self.id.clone(),
            status: self.status,
            incarnation: self.incarnation,
            last_update: self.last_update,
        }
    }
}

impl NodeRecord {

    /// A suspect whose silence (`elapsed_nanos`) exceeds `timeout_nanos` is
    /// declared dead as of `now`; any other record is left as it is.
    pub fn expire_if_overdue(&mut self, elapsed_nanos: u128, timeout_nanos: u128, now: u128)
        ensures
            if old(self).status == NodeStatus::Suspect && elapsed_nanos > timeout_nanos {
                *final(self) == (NodeRecord {
                    status: NodeStatus::Dead,
                    last_update: now,
                    ..*old(self)
                })
            } else {
                *final(self) == *old(self)
            },
    {
        if self.status == NodeStatus::Suspect && elapsed_nanos > timeout_nanos {
            self.status = NodeStatus::Dead;
            self.last_update = now;
        }
    }
}

pub struct SwimProtocol {
    pub local_id: String,
    /// Members by identifier.
    pub members: StrMap<NodeRecord>,
    /// How long a suspect may stay silent, in nanoseconds.
    pub suspect_timeout: u128,
    /// The clock origin: every time held here counts nanoseconds since it.
    pub epoch: Instant,
}

/// The silence of a record last updated at `last`, at time `now`: the time
/// between the two, or 0 when `last` is not earlier (as `Instant::duration_since`
/// saturates).
pub open spec fn elapsed(now: u128, last: u128) -> nat {
    if now >= last {
        (now - last) as nat
    } else {
        0
    }
}

/// Whether news (`status` at `incarnation`) replaces what is known of a
/// member: always for an unknown member, otherwise when the incarnation is
/// newer, or equal and the news is a first report of death.
pub open spec fn news_accepted(
    known: Map<Seq<char>, NodeRecord>,
    id: Seq<char>,
    status: NodeStatus,
    incarnation: u64,
) -> bool {
    !known.contains_key(id) || incarnation > known[id].incarnation || (incarnation
        == known[id].incarnation && status == NodeStatus::Dead && known[id].status
        != NodeStatus::Dead)
}

/// Handling news about member `id` takes the membership `pre` to `post`:
/// news about the local node and news that is not accepted change nothing;
/// accepted news replaces the member's record (with a fresh update time).
pub open spec fn update_step(
    pre: Map<Seq<char>, NodeRecord>,
    local: Seq<char>,
    id: Seq<char>,
    status: NodeStatus,
    incarnation: u64,
    post: Map<Seq<char>, NodeRecord>,
) -> bool {
    if id != local && news_accepted(pre, id, status, incarnation) {
        &&& post.dom() == pre.dom().insert(id)
        &&& post[id].id@ == id
        &&& post[id].status == status
        &&& post[id].incarnation == incarnation
        &&& forall|k: Seq<char>| #[trigger] pre.contains_key(k) && k != id ==> post[k] == pre[k]
    } else {
        post == pre
    }
}

/// A suspect declared dead at `now`: the same record, now dead, last updated at `now`.
pub open spec fn expired(r: NodeRecord, now: u128) -> NodeRecord {
    NodeRecord { status: NodeStatus::Dead, last_update: now, ..r }
}

/// What the timeout pass made at time `now` does to record `r`: a suspect
/// silent for longer than `timeout` is declared dead at `now`; any other
/// record stays as it is.
pub open spec fn after_timeout(r: NodeRecord, now: u128, timeout: u128) -> NodeRecord {
    if r.status == NodeStatus::Suspect && elapsed(now, r.last_update) > timeout {
        expired(r, now)
    } else {
        r
    }
}

/// The timeout pass made at time `now` with `timeout` takes `pre` to `post`.
pub open spec fn timeout_step_at(
    pre: Map<Seq<char>, NodeRecord>,
    post: Map<Seq<char>, NodeRecord>,
    now: u128,
    timeout: u128,
) -> bool {
    &&& post.dom() == pre.dom()
    &&& forall|k: Seq<char>| #[trigger] pre.contains_key(k) ==> post[k] == after_timeout(pre[k], now, timeout)
}

/// A timeout pass with `timeout`, made at one time read from the clock,
/// takes `pre` to `post`.
pub open spec fn timeout_step(
    pre: Map<Seq<char>, NodeRecord>,
    post: Map<Seq<char>, NodeRecord>,
    timeout: u128,
) -> bool {
    exists|now: u128| #[trigger] timeout_step_at(pre, post, now, timeout)
}

/// Identifiers of the members marked alive, in table order.
pub open spec fn alive_ids(entries: Seq<(String, NodeRecord)>) -> Seq<Seq<char>> {
    entries.filter(entry_alive()).map_values(entry_id())
}

/// Holds of the entries whose member is alive.
pub open spec fn entry_alive() -> spec_fn((String, NodeRecord)) -> bool {
    |e: (String, NodeRecord)| e.1.status == NodeStatus::Alive
}

/// The member identifier of an entry.
pub open spec fn entry_id() -> spec_fn((String, NodeRecord)) -> Seq<char> {
    |e: (String, NodeRecord)| e.1.id@
}

impl SwimProtocol {
    /// Every record sits under its own identifier, and the local node is not a member.
    pub open spec fn wf(&self) -> bool {
        &&& self.members.wf()
        &&& forall|k: Seq<char>| #[trigger]
            self.members@.contains_key(k) ==> self.members@[k].id@ == k && k
                != self.local_id@
    }

    /// A node that knows no members yet; suspects time out after 5 seconds.
    /// Its clock origin is the time of the call.
    pub fn new(local_id: String) -> (s: Self)
        ensures
            s.wf(),
            s.local_id == local_id,
            s.members@ == Map::<Seq<char>, NodeRecord>::empty(),
            s.suspect_timeout == 5_000_000_000,
    {
        SwimProtocol {
            local_id,
            members: StrMap::new(),
            suspect_timeout: 5_000_000_000,
            epoch: instant_now(),
        }
    }

    /// The current time, in nanoseconds since the clock origin.
    fn clock_nanos(&self) -> u128 {
        let now = instant_now();
        duration_as_nanos(&instant_duration_since(&now, &self.epoch))
    }

    /// Takes news that member `id` has `status` at `incarnation`. An accepted
    /// record is stamped with the time the clock gives.
    pub fn update_member(&mut self, id: String, status: NodeStatus, incarnation: u64)
        requires
            old(self).wf(),
        ensures
            final(self).wf(),
            final(self).local_id == old(self).local_id,
            final(self).suspect_timeout == old(self).suspect_timeout,
            final(self).epoch == old(self).epoch,
            update_step(
                old(self).members@,
                old(self).local_id@,
                id@,
                status,
                incarnation,
                final(self).members@,
            ),
    {
        if id == self.local_id {
            return ;
        }
        let accept = match self.members.get(&id) {
            Some(record) => incarnation > record.incarnation || (incarnation == record.incarnation
                && status == NodeStatus::Dead && record.status != NodeStatus::Dead),
            None => true,
        };
        if accept {
            let ghost pre = self.members@;
            let key = id.clone();
            let now = self.clock_nanos();
            let record = NodeRecord { id, status, incarnation, last_update: now };
            self.members.insert(key, record);
            proof {
                assert(self.members@.dom() =~= pre.dom().insert(key@));
            }
        }
    }

    /// Declares dead every suspect whose silence exceeds the suspect timeout,
    /// all as of one reading of the clock.
    pub fn check_timeouts(&mut self)
        requires
            old(self).wf(),
        ensures
            final(self).wf(),
            final(self).local_id == old(self).local_id,
            final(self).suspect_timeout == old(self).suspect_timeout,
            final(self).epoch == old(self).epoch,
            timeout_step(old(self).members@, final(self).members@, old(self).suspect_timeout),
    {
        let now = self.clock_nanos();
        let timeout = self.suspect_timeout;
        let ghost pre = self.members@;
        let ghost pre_entries = self.members.entries@;
        let mut i: usize = 0;
        while i < self.members.entries.len()
            invariant
                i <= self.members.entries@.len(),
                self.members.entries@.len() == pre_entries.len(),
                self.local_id == old(self).local_id,
                self.suspect_timeout == old(self).suspect_timeout,
                self.epoch == old(self).epoch,
                timeout == self.suspect_timeout,
                forall|k: Seq<char>| #[trigger]
                    pre.contains_key(k) ==> pre[k].id@ == k && k != self.local_id@,
                pre == crate::collections::entries_map(pre_entries),
                crate::collections::keys_distinct(pre_entries),
                forall|j: int|
                    0 <= j < pre_entries.len() ==> (#[trigger] self.members.entries@[j]).0
                        == pre_entries[j].0,
                forall|j: int|
                    #![trigger self.members.entries@[j]]
                    0 <= j < i ==> self.members.entries@[j].1 == after_timeout(
                        pre_entries[j].1,
                        now,
                        timeout,
                    ),
                forall|j: int|
                    #![trigger self.members.entries@[j]]
                    i <= j < pre_entries.len() ==> self.members.entries@[j].1 == pre_entries[j].1,
            decreases self.members.entries@.len() - i,
        {
            let mut record = self.members.entries[i].1.clone();
            let last = record.last_update;
            let silence: u128 = if now >= last {
                now - last
            } else {
                0
            };
            record.expire_if_overdue(silence, timeout, now);
            let key = self.members.entries[i].0.clone();
            self.members.entries.set(i, (key, record));
            i = i + 1;
        }
        proof {
            let s = self.members.entries@;
            assert(crate::collections::keys_distinct(s)) by {
                assert forall|a: int, b: int|
                    0 <= a < s.len() && 0 <= b < s.len() && a != b implies #[trigger] s[a].0@
                    != #[trigger] s[b].0@ by {
                    assert(s[a].0 == pre_entries[a].0);
                    assert(s[b].0 == pre_entries[b].0);
                }
            }
            assert forall|k: Seq<char>|
                #[trigger] self.members@.dom().contains(k) <==> pre.dom().contains(k) by {
                if pre.dom().contains(k) {
                    let j = crate::collections::key_index(pre_entries, k);
                    assert(s[j].0@ == k);
                }
                if self.members@.dom().contains(k) {
                    let j = crate::collections::key_index(s, k);
                    assert(pre_entries[j].0@ == k);
                }
            }
            assert(self.members@.dom() =~= pre.dom());
            assert forall|k: Seq<char>| #[trigger] pre.contains_key(k) implies self.members@[k]
                == after_timeout(pre[k], now, timeout) by {
                let j = crate::collections::key_index(pre_entries, k);
                lemma_entry_in_map(pre_entries, j);
                lemma_entry_in_map(s, j);
                assert(s[j].0 == pre_entries[j].0);
            }
            assert(timeout_step_at(pre, self.members@, now, timeout));
            assert forall|k: Seq<char>| #[trigger]
                self.members@.contains_key(k) implies self.members@[k].id@ == k && k
                != self.local_id@ by {
                let j = crate::collections::key_index(pre_entries, k);
                lemma_entry_in_map(pre_entries, j);
                lemma_entry_in_map(s, j);
            }
        }
    }

    /// Identifiers of the members currently marked alive.
    pub fn get_alive_members(&self) -> (r: Vec<String>)
        requires
            self.wf(),
        ensures
            string_views(r@) == alive_ids(self.members.entries@),
    {
        let ghost f = entry_alive();
        let ghost g = entry_id();
        let ghost s = self.members.entries@;
        let mut r: Vec<String> = Vec::new();
        let mut i: usize = 0;
        while i < self.members.entries.len()
            invariant
                i <= s.len(),
                s == self.members.entries@,
                f == entry_alive(),
                g == entry_id(),
                string_views(r@) == s.take(i as int).filter(f).map_values(g),
            decreases s.len() - i,
        {
            let ghost before = r@;
            let alive = self.members.entries[i].1.status == NodeStatus::Alive;
            if alive {
                r.push(self.members.entries[i].1.id.clone());
            }
            proof {
                let t = s.take(i + 1);
                assert(t.drop_last() =~= s.take(i as int));
                assert(t.last() == s[i as int]);
                reveal_with_fuel(Seq::<_>::filter, 1);
                assert(t.filter(f) == (if f(t.last()) {
                    t.drop_last().filter(f).push(t.last())
                } else {
                    t.drop_last().filter(f)
                }));
                if alive {
                    assert(string_views(r@) =~= string_views(before).push(g(t.last())));
                    assert(t.filter(f).map_values(g) =~= t.drop_last().filter(f).map_values(
                        g,
                    ).push(g(t.last())));
                } else {
                    assert(r@ == before);
                }
            }
            i = i + 1;
        }
        proof {
            assert(s.take(s.len() as int) =~= s);
        }
        r
    }
}

/// SWIM law: news at the same incarnation never brings a dead member back;
/// only a higher incarnation can change a dead member's status.
pub proof fn law_dead_stays_dead_within_incarnation(
    pre: Map<Seq<char>, NodeRecord>,
    local: Seq<char>,
    id: Seq<char>,
    status: NodeStatus,
    incarnation: u64,
    post: Map<Seq<char>, NodeRecord>,
)
    requires
        update_step(pre, local, id, status, incarnation, post),
        pre.contains_key(id),
        pre[id].status == NodeStatus::Dead,
        incarnation <= pre[id].incarnation,
    ensures
        post.contains_key(id),
        post[id].status == NodeStatus::Dead,
        post[id].incarnation == pre[id].incarnation,
{
}

/// SWIM law: a member's known incarnation never decreases, through news or timeouts.
pub proof fn law_incarnation_never_decreases(
    pre: Map<Seq<char>, NodeRecord>,
    local: Seq<char>,
    id: Seq<char>,
    status: NodeStatus,
    incarnation: u64,
    post_update: Map<Seq<char>, NodeRecord>,
    post_timeout: Map<Seq<char>, NodeRecord>,
    timeout: u128,
    k: Seq<char>,
)
    requires
        update_step(pre, local, id, status, incarnation, post_update),
        timeout_step(pre, post_timeout, timeout),
        pre.contains_key(k),
    ensures
        post_update.contains_key(k),
        post_update[k].incarnation >= pre[k].incarnation,
        post_timeout.contains_key(k),
        post_timeout[k].incarnation == pre[k].incarnation,
{
    let now = choose|now: u128| #[trigger] timeout_step_at(pre, post_timeout, now, timeout);
    assert(timeout_step_at(pre, post_timeout, now, timeout));
}

/// SWIM law: news about another member from a newer incarnation always wins,
/// whatever status it reports, and so does the first news about a member:
/// afterwards the member has the reported status and incarnation, and every
/// other member is as it was.
pub proof fn law_newer_incarnation_wins(
    pre: Map<Seq<char>, NodeRecord>,
    local: Seq<char>,
    id: Seq<char>,
    status: NodeStatus,
    incarnation: u64,
    post: Map<Seq<char>, NodeRecord>,
    k: Seq<char>,
)
    requires
        update_step(pre, local, id, status, incarnation, post),
        id != local,
        !pre.contains_key(id) || incarnation > pre[id].incarnation,
    ensures
        post.contains_key(id),
        post[id].status == status,
        post[id].incarnation == incarnation,
        post[id].id@ == id,
        pre.contains_key(k) && k != id ==> post.contains_key(k) && post[k] == pre[k],
{
}

} // verus!
