//! The offline-first local store of a mobile node: direct messages,
//! broadcasts, presence, team and federation members, and the pending-sync
//! ledger, all persisted through the canonical byte format.

use vstd::prelude::*;
use crate::bytesutil::str_eq;
use crate::codec::{
    enc_bool, enc_str, enc_u64, lemma_enc_list_push, read_bool, read_str, read_u64, write_bool,
    write_str, write_u64, enc_list,
};
use crate::federation::now_micros;

verus! {

/// A stored direct message.
#[derive(Debug)]
pub struct StoredDM {
    /// The store-local id.
    pub id: u64,
    /// The sender.
    pub from_ai: String,
    /// The recipient.
    pub to_ai: String,
    /// The text.
    pub content: String,
    /// Milliseconds since the epoch when stored.
    pub timestamp: u64,
    /// Whether the recipient has read it.
    pub read: bool,
    /// Whether it reached the server.
    pub synced: bool,
}

/// Whether two stored direct messages carry the same data.
pub open spec fn dm_record_eq(a: StoredDM, b: StoredDM) -> bool {
    &&& a.id == b.id
    &&& a.from_ai@ == b.from_ai@
    &&& a.to_ai@ == b.to_ai@
    &&& a.content@ == b.content@
    &&& a.timestamp == b.timestamp
    &&& a.read == b.read
    &&& a.synced == b.synced
}

impl Clone for StoredDM {
    /// A copy carrying the same data.
    fn clone(&self) -> (res: StoredDM)
        ensures
            dm_record_eq(res, *self),
    {
        StoredDM {
            id: self.id,
            from_ai: self.from_ai.clone(),
            to_ai: self.to_ai.clone(),
            content: self.content.clone(),
            timestamp: self.timestamp,
            read: self.read,
            synced: self.synced,
        }
    }
}

/// A stored broadcast.
#[derive(Debug)]
pub struct StoredBroadcast {
    /// The store-local id.
    pub id: u64,
    /// The sender.
    pub from_ai: String,
    /// The channel.
    pub channel: String,
    /// The text.
    pub content: String,
    /// Milliseconds since the epoch when stored.
    pub timestamp: u64,
    /// Whether it reached the server.
    pub synced: bool,
}

/// Whether two stored broadcasts carry the same data.
pub open spec fn broadcast_record_eq(a: StoredBroadcast, b: StoredBroadcast) -> bool {
    &&& a.id == b.id
    &&& a.from_ai@ == b.from_ai@
    &&& a.channel@ == b.channel@
    &&& a.content@ == b.content@
    &&& a.timestamp == b.timestamp
    &&& a.synced == b.synced
}

impl Clone for StoredBroadcast {
    /// A copy carrying the same data.
    fn clone(&self) -> (res: StoredBroadcast)
        ensures
            broadcast_record_eq(res, *self),
    {
        StoredBroadcast {
            id: self.id,
            from_ai: self.from_ai.clone(),
            channel: self.channel.clone(),
            content: self.content.clone(),
            timestamp: self.timestamp,
            synced: self.synced,
        }
    }
}

/// A stored presence record.
#[derive(Debug)]
pub struct StoredPresence {
    /// Whose presence this is.
    pub ai_id: String,
    /// The declared status.
    pub status: String,
    /// What the owner is doing.
    pub current_task: String,
    /// Milliseconds since the epoch of the last update.
    pub last_seen: u64,
}

impl Clone for StoredPresence {
    /// A copy carrying the same data.
    fn clone(&self) -> (res: StoredPresence)
        ensures
            res.ai_id@ == self.ai_id@,
            res.status@ == self.status@,
            res.current_task@ == self.current_task@,
            res.last_seen == self.last_seen,
    {
        StoredPresence {
            ai_id: self.ai_id.clone(),
            status: self.status.clone(),
            current_task: self.current_task.clone(),
            last_seen: self.last_seen,
        }
    }
}

/// A stored team member.
#[derive(Debug)]
pub struct StoredTeamMember {
    /// The member's identifier.
    pub ai_id: String,
    /// The member's display name.
    pub display_name: String,
    /// The member's status.
    pub status: String,
    /// What the member is doing, if known.
    pub current_activity: Option<String>,
}

impl Clone for StoredTeamMember {
    /// A copy carrying the same data.
    fn clone(&self) -> (res: StoredTeamMember)
        ensures
            res.ai_id@ == self.ai_id@,
            res.display_name@ == self.display_name@,
            res.status@ == self.status@,
            crate::bytesutil::opt_str_eq(res.current_activity, self.current_activity),
    {
        StoredTeamMember {
            ai_id: self.ai_id.clone(),
            display_name: self.display_name.clone(),
            status: self.status.clone(),
            current_activity: crate::bytesutil::clone_opt_string(&self.current_activity),
        }
    }
}

/// A stored federation member.
#[derive(Debug)]
pub struct StoredFederationMember {
    /// The member's identifier.
    pub member_id: String,
    /// Whether it is a device or another kind of member.
    pub member_type: String,
    /// The member's display name.
    pub display_name: String,
    /// The member's status.
    pub status: String,
    /// When the member registered, as text.
    pub registered_at: String,
}

impl Clone for StoredFederationMember {
    /// A copy carrying the same data.
    fn clone(&self) -> (res: StoredFederationMember)
        ensures
            res.member_id@ == self.member_id@,
            res.member_type@ == self.member_type@,
            res.display_name@ == self.display_name@,
            res.status@ == self.status@,
            res.registered_at@ == self.registered_at@,
    {
        StoredFederationMember {
            member_id: self.member_id.clone(),
            member_type: self.member_type.clone(),
            display_name: self.display_name.clone(),
            status: self.status.clone(),
            registered_at: self.registered_at.clone(),
        }
    }
}

/// An item awaiting a push to the server.
#[derive(Debug, Clone, Copy, PartialEq, Eq, Structural)]
pub enum SyncItem {
    /// A direct message, by local id.
    DM {
        /// The store-local id.
        local_id: u64,
    },
    /// A broadcast, by local id.
    Broadcast {
        /// The store-local id.
        local_id: u64,
    },
    /// The presence record.
    Presence,
}

/// How many stored direct messages name a recipient.
pub open spec fn dm_match_count(s: Seq<StoredDM>, to_ai: Seq<char>) -> nat
    decreases s.len(),
{
    if s.len() == 0 {
        0
    } else {
        (if s[0].to_ai@ == to_ai {
            1nat
        } else {
            0nat
        }) + dm_match_count(s.drop_first(), to_ai)
    }
}

/// Counting matches over a prefix extends one record at a time.
proof fn lemma_dm_match_count_take(s: Seq<StoredDM>, i: int, to_ai: Seq<char>)
    requires
        0 <= i < s.len(),
    ensures
        dm_match_count(s.take(i + 1), to_ai) == dm_match_count(s.take(i), to_ai) + (if s[i].to_ai@
            == to_ai {
            1nat
        } else {
            0nat
        }),
    decreases i,
{
    if i == 0 {
        assert(s.take(1)[0] == s[0]);
        assert(s.take(1).drop_first() =~= s.take(0));
    } else {
        assert(s.take(i + 1)[0] == s[0]);
        assert(s.take(i)[0] == s[0]);
        assert(s.take(i + 1).drop_first() =~= s.drop_first().take(i));
        assert(s.take(i).drop_first() =~= s.drop_first().take(i - 1));
        assert(s.drop_first()[i - 1] == s[i]);
        lemma_dm_match_count_take(s.drop_first(), i - 1, to_ai);
    }
}

/// How many stored broadcasts a channel query selects.
pub open spec fn broadcast_match_count(s: Seq<StoredBroadcast>, channel: Seq<char>) -> nat
    decreases s.len(),
{
    if s.len() == 0 {
        0
    } else {
        (if s[0].channel@ == channel || channel == "all"@ {
            1nat
        } else {
            0nat
        }) + broadcast_match_count(s.drop_first(), channel)
    }
}

/// Counting selected broadcasts over a prefix extends one record at a time.
proof fn lemma_broadcast_match_count_take(s: Seq<StoredBroadcast>, i: int, channel: Seq<char>)
    requires
        0 <= i < s.len(),
    ensures
        broadcast_match_count(s.take(i + 1), channel) == broadcast_match_count(s.take(i), channel)
            + (if s[i].channel@ == channel || channel == "all"@ {
            1nat
        } else {
            0nat
        }),
    decreases i,
{
    if i == 0 {
        assert(s.take(1)[0] == s[0]);
        assert(s.take(1).drop_first() =~= s.take(0));
    } else {
        assert(s.take(i + 1)[0] == s[0]);
        assert(s.take(i)[0] == s[0]);
        assert(s.take(i + 1).drop_first() =~= s.drop_first().take(i));
        assert(s.take(i).drop_first() =~= s.drop_first().take(i - 1));
        assert(s.drop_first()[i - 1] == s[i]);
        lemma_broadcast_match_count_take(s.drop_first(), i - 1, channel);
    }
}

/// The offline-first local store.
#[derive(Debug)]
pub struct LocalStore {
    /// The next store-local id to hand out.
    pub next_id: u64,
    /// Direct messages, oldest first.
    pub dms: Vec<StoredDM>,
    /// Broadcasts, oldest first.
    pub broadcasts: Vec<StoredBroadcast>,
    /// One presence record per owner.
    pub presences: Vec<StoredPresence>,
    /// The team roster.
    pub team_members: Vec<StoredTeamMember>,
    /// The federation roster.
    pub federation_members: Vec<StoredFederationMember>,
    /// Milliseconds since the epoch of the last sync.
    pub last_sync: u64,
    /// Items awaiting a push.
    pub pending_sync: Vec<SyncItem>,
}

impl Default for LocalStore {
    /// An empty store.
    fn default() -> (r: LocalStore)
        ensures
            r.next_id == 0,
            r.dms@.len() == 0,
            r.broadcasts@.len() == 0,
            r.presences@.len() == 0,
            r.team_members@.len() == 0,
            r.federation_members@.len() == 0,
            r.last_sync == 0,
            r.pending_sync@.len() == 0,
    {
        LocalStore {
            next_id: 0,
            dms: Vec::new(),
            broadcasts: Vec::new(),
            presences: Vec::new(),
            team_members: Vec::new(),
            federation_members: Vec::new(),
            last_sync: 0,
            pending_sync: Vec::new(),
        }
    }
}

impl LocalStore {
    /// Stores a direct message under the next id, unread and unsynced, and
    /// marks it for sync. Returns the id.
    pub fn insert_dm(&mut self, from: &str, to: &str, content: &str) -> (r: u64)
        requires
            old(self).next_id < u64::MAX,
        ensures
            r == old(self).next_id,
            final(self).next_id == old(self).next_id + 1,
            final(self).dms@.len() == old(self).dms@.len() + 1,
            ({
                let dm = final(self).dms@[final(self).dms@.len() - 1];
                &&& dm.id == r
                &&& dm.from_ai@ == from@
                &&& dm.to_ai@ == to@
                &&& dm.content@ == content@
                &&& dm.read == false
                &&& dm.synced == false
            }),
            forall|i: int|
                0 <= i < old(self).dms@.len() ==> final(self).dms@[i] == old(self).dms@[i],
            final(self).broadcasts@ == old(self).broadcasts@,
            final(self).pending_sync@ == old(self).pending_sync@.push(
                SyncItem::DM { local_id: old(self).next_id },
            ),
    {
        let id = self.next_id;
        self.next_id = self.next_id + 1;
        self.dms.push(
            StoredDM {
                id,
                from_ai: from.to_owned(),
                to_ai: to.to_owned(),
                content: content.to_owned(),
                timestamp: now_micros() / 1000,
                read: false,
                synced: false,
            },
        );
        self.pending_sync.push(SyncItem::DM { local_id: id });
        id
    }

    /// The direct messages for a recipient, newest first, at most `limit`.
    pub fn get_dms(&self, to_ai: &str, limit: usize) -> (r: Vec<StoredDM>)
        ensures
            forall|i: int| 0 <= i < r@.len() ==> (#[trigger] r@[i]).to_ai@ == to_ai@,
            forall|i: int, j: int|
                0 <= i < j < r@.len() ==> (#[trigger] r@[i]).timestamp
                    >= (#[trigger] r@[j]).timestamp,
            r@.len() <= limit,
            r@.len() == (if dm_match_count(self.dms@, to_ai@) <= limit {
                dm_match_count(self.dms@, to_ai@) as int
            } else {
                limit as int
            }),
    {
        let n = self.dms.len();
        let mut matched: Vec<StoredDM> = Vec::new();
        let mut i: usize = 0;
        proof {
            assert(self.dms@.take(0) =~= Seq::<StoredDM>::empty());
        }
        while i < n
            invariant
                n == self.dms@.len(),
                i <= n,
                matched@.len() == dm_match_count(self.dms@.take(i as int), to_ai@),
                forall|x: int| 0 <= x < matched@.len() ==> (#[trigger] matched@[x]).to_ai@ == to_ai@,
                forall|x: int, y: int|
                    0 <= x < y < matched@.len() ==> (#[trigger] matched@[x]).timestamp
                        >= (#[trigger] matched@[y]).timestamp,
            decreases n - i,
        {
            proof {
                lemma_dm_match_count_take(self.dms@, i as int, to_ai@);
            }
            if str_eq(self.dms[i].to_ai.as_str(), to_ai) {
                let copy = self.dms[i].clone();
                let ghost before = matched@;
                let ghost copy_snapshot = copy;
                proof {
                    assert(dm_record_eq(copy, self.dms@[i as int]));
                }
                insert_dm_sorted(&mut matched, copy);
                proof {
                    assert forall|x: int|
                        0 <= x < matched@.len() implies (#[trigger] matched@[x]).to_ai@ == to_ai@
                        by {
                        if matched@[x] == copy_snapshot {
                        } else {
                            let y = choose|y: int|
                                0 <= y < before.len() && matched@[x] == before[y];
                        }
                    }
                }
            }
            i = i + 1;
        }
        proof {
            assert(self.dms@.take(n as int) =~= self.dms@);
        }
        matched.truncate(limit);
        matched
    }

    /// Stores a broadcast under the next id and marks it for sync. Returns
    /// the id.
    pub fn insert_broadcast(&mut self, from: &str, channel: &str, content: &str) -> (r: u64)
        requires
            old(self).next_id < u64::MAX,
        ensures
            r == old(self).next_id,
            final(self).next_id == old(self).next_id + 1,
            final(self).broadcasts@.len() == old(self).broadcasts@.len() + 1,
            ({
                let bc = final(self).broadcasts@[final(self).broadcasts@.len() - 1];
                &&& bc.id == r
                &&& bc.from_ai@ == from@
                &&& bc.channel@ == channel@
                &&& bc.content@ == content@
                &&& bc.synced == false
            }),
            forall|i: int|
                0 <= i < old(self).broadcasts@.len() ==> final(self).broadcasts@[i]
                    == old(self).broadcasts@[i],
            final(self).dms@ == old(self).dms@,
            final(self).pending_sync@ == old(self).pending_sync@.push(
                SyncItem::Broadcast { local_id: old(self).next_id },
            ),
    {
        let id = self.next_id;
        self.next_id = self.next_id + 1;
        self.broadcasts.push(
            StoredBroadcast {
                id,
                from_ai: from.to_owned(),
                channel: channel.to_owned(),
                content: content.to_owned(),
                timestamp: now_micros() / 1000,
                synced: false,
            },
        );
        self.pending_sync.push(SyncItem::Broadcast { local_id: id });
        id
    }

    /// The broadcasts of a channel, newest first, at most `limit`; the
    /// channel `all` selects every channel.
    pub fn get_broadcasts(&self, channel: &str, limit: usize) -> (r: Vec<StoredBroadcast>)
        ensures
            forall|i: int|
                0 <= i < r@.len() ==> ((#[trigger] r@[i]).channel@ == channel@ || channel@
                    == "all"@),
            forall|i: int, j: int|
                0 <= i < j < r@.len() ==> (#[trigger] r@[i]).timestamp
                    >= (#[trigger] r@[j]).timestamp,
            r@.len() <= limit,
            r@.len() == (if broadcast_match_count(self.broadcasts@, channel@) <= limit {
                broadcast_match_count(self.broadcasts@, channel@) as int
            } else {
                limit as int
            }),
    {
        let n = self.broadcasts.len();
        let mut matched: Vec<StoredBroadcast> = Vec::new();
        let mut i: usize = 0;
        proof {
            assert(self.broadcasts@.take(0) =~= Seq::<StoredBroadcast>::empty());
        }
        while i < n
            invariant
                n == self.broadcasts@.len(),
                i <= n,
                matched@.len() == broadcast_match_count(self.broadcasts@.take(i as int), channel@),
                forall|x: int|
                    0 <= x < matched@.len() ==> ((#[trigger] matched@[x]).channel@ == channel@
                        || channel@ == "all"@),
                forall|x: int, y: int|
                    0 <= x < y < matched@.len() ==> (#[trigger] matched@[x]).timestamp
                        >= (#[trigger] matched@[y]).timestamp,
            decreases n - i,
        {
            proof {
                lemma_broadcast_match_count_take(self.broadcasts@, i as int, channel@);
            }
            if str_eq(self.broadcasts[i].channel.as_str(), channel) || str_eq(channel, "all") {
                let copy = self.broadcasts[i].clone();
                let ghost before = matched@;
                let ghost copy_snapshot = copy;
                proof {
                    assert(broadcast_record_eq(copy, self.broadcasts@[i as int]));
                }
                insert_broadcast_sorted(&mut matched, copy);
                proof {
                    assert forall|x: int|
                        0 <= x < matched@.len() implies ((#[trigger] matched@[x]).channel@
                            == channel@ || channel@ == "all"@) by {
                        if matched@[x] == copy_snapshot {
                        } else {
                            let y = choose|y: int|
                                0 <= y < before.len() && matched@[x] == before[y];
                        }
                    }
                }
            }
            i = i + 1;
        }
        proof {
            assert(self.broadcasts@.take(n as int) =~= self.broadcasts@);
        }
        matched.truncate(limit);
        matched
    }

    /// Upserts the presence of one owner, stamped now, and marks presence
    /// for sync once.
    pub fn update_presence(&mut self, ai_id: &str, status: &str, task: &str)
        ensures
            final(self).dms@ == old(self).dms@,
            final(self).broadcasts@ == old(self).broadcasts@,
            final(self).next_id == old(self).next_id,
            exists|i: int|
                0 <= i < final(self).presences@.len() && (#[trigger] final(self).presences@[
                    i]).ai_id@ == ai_id@ && final(self).presences@[i].status@ == status@
                    && final(self).presences@[i].current_task@ == task@,
    {
        let record = StoredPresence {
            ai_id: ai_id.to_owned(),
            status: status.to_owned(),
            current_task: task.to_owned(),
            last_seen: now_micros() / 1000,
        };
        let n = self.presences.len();
        let mut i: usize = 0;
        let mut found: Option<usize> = None;
        while i < n
            invariant
                n == self.presences@.len(),
                i <= n,
                match found {
                    Some(idx) => idx < n && self.presences@[idx as int].ai_id@ == ai_id@,
                    None => true,
                },
            decreases n - i,
        {
            if str_eq(self.presences[i].ai_id.as_str(), ai_id) {
                found = Some(i);
            }
            i = i + 1;
        }
        let ghost record_snapshot = record;
        match found {
            Some(idx) => {
                self.presences[idx] = record;
                proof {
                    assert(self.presences@[idx as int] == record_snapshot);
                    assert(self.presences@[idx as int].ai_id@ == ai_id@
                        && self.presences@[idx as int].status@ == status@
                        && self.presences@[idx as int].current_task@ == task@);
                }
            },
            None => {
                self.presences.push(record);
                proof {
                    assert(self.presences@[self.presences@.len() - 1] == record_snapshot);
                    assert(self.presences@[self.presences@.len() - 1].ai_id@ == ai_id@
                        && self.presences@[self.presences@.len() - 1].status@ == status@
                        && self.presences@[self.presences@.len() - 1].current_task@ == task@);
                }
            },
        }
        // Presence is fire-and-forget: one pending marker is enough.
        let ghost mid_presences = self.presences@;
        let ghost witness = choose|i2: int|
            0 <= i2 < self.presences@.len() && (#[trigger] self.presences@[i2]).ai_id@ == ai_id@
                && self.presences@[i2].status@ == status@ && self.presences@[i2].current_task@
                == task@;
        let m = self.pending_sync.len();
        let mut j: usize = 0;
        let mut marked = false;
        while j < m && !marked
            invariant
                m == self.pending_sync@.len(),
                j <= m,
                self.dms@ == old(self).dms@,
                self.broadcasts@ == old(self).broadcasts@,
                self.next_id == old(self).next_id,
                self.presences@ == mid_presences,
            decreases m - j, (if marked { 0int } else { 1int }),
        {
            if matches!(self.pending_sync[j], SyncItem::Presence) {
                marked = true;
            } else {
                j = j + 1;
            }
        }
        if !marked {
            self.pending_sync.push(SyncItem::Presence);
        }
        proof {
            assert(self.presences@ == mid_presences);
            assert(0 <= witness < self.presences@.len() && self.presences@[witness].ai_id@
                == ai_id@ && self.presences@[witness].status@ == status@
                && self.presences@[witness].current_task@ == task@);
        }
    }

    /// The presence record of one owner; answers exactly when one is stored.
    pub fn get_presence(&self, ai_id: &str) -> (r: Option<StoredPresence>)
        ensures
            r is Some <==> exists|i: int|
                0 <= i < self.presences@.len() && (#[trigger] self.presences@[i]).ai_id@ == ai_id@,
            match r {
                Some(p) => exists|i: int|
                    0 <= i < self.presences@.len() && (#[trigger] self.presences@[i]).ai_id@
                        == ai_id@ && self.presences@[i].status@ == p.status@
                        && self.presences@[i].current_task@ == p.current_task@,
                None => true,
            },
    {
        let n = self.presences.len();
        let mut i: usize = 0;
        while i < n
            invariant
                n == self.presences@.len(),
                i <= n,
                forall|j: int| 0 <= j < i ==> (#[trigger] self.presences@[j]).ai_id@ != ai_id@,
            decreases n - i,
        {
            if str_eq(self.presences[i].ai_id.as_str(), ai_id) {
                let copy = self.presences[i].clone();
                proof {
                    assert(self.presences@[i as int].ai_id@ == ai_id@);
                }
                return Some(copy);
            }
            i = i + 1;
        }
        None
    }

    /// The team roster, in order.
    pub fn get_team(&self) -> (r: Vec<StoredTeamMember>)
        ensures
            r@.len() == self.team_members@.len(),
            forall|i: int|
                0 <= i < r@.len() ==> (#[trigger] r@[i]).ai_id@ == self.team_members@[i].ai_id@,
    {
        let n = self.team_members.len();
        let mut out: Vec<StoredTeamMember> = Vec::new();
        let mut i: usize = 0;
        while i < n
            invariant
                n == self.team_members@.len(),
                i <= n,
                out@.len() == i,
                forall|j: int|
                    0 <= j < i ==> (#[trigger] out@[j]).ai_id@ == self.team_members@[j].ai_id@,
            decreases n - i,
        {
            out.push(self.team_members[i].clone());
            i = i + 1;
        }
        out
    }

    /// The federation roster, in order.
    pub fn get_federation_members(&self) -> (r: Vec<StoredFederationMember>)
        ensures
            r@.len() == self.federation_members@.len(),
            forall|i: int|
                0 <= i < r@.len() ==> (#[trigger] r@[i]).member_id@
                    == self.federation_members@[i].member_id@,
    {
        let n = self.federation_members.len();
        let mut out: Vec<StoredFederationMember> = Vec::new();
        let mut i: usize = 0;
        while i < n
            invariant
                n == self.federation_members@.len(),
                i <= n,
                out@.len() == i,
                forall|j: int|
                    0 <= j < i ==> (#[trigger] out@[j]).member_id@
                        == self.federation_members@[j].member_id@,
            decreases n - i,
        {
            out.push(self.federation_members[i].clone());
            i = i + 1;
        }
        out
    }
}

/// Inserts a direct message into a list kept sorted newest-first.
fn insert_dm_sorted(v: &mut Vec<StoredDM>, dm: StoredDM)
    requires
        forall|x: int, y: int|
            0 <= x < y < old(v)@.len() ==> (#[trigger] old(v)@[x]).timestamp
                >= (#[trigger] old(v)@[y]).timestamp,
    ensures
        final(v)@.len() == old(v)@.len() + 1,
        forall|x: int, y: int|
            0 <= x < y < final(v)@.len() ==> (#[trigger] final(v)@[x]).timestamp
                >= (#[trigger] final(v)@[y]).timestamp,
        forall|x: int|
            0 <= x < final(v)@.len() ==> (final(v)@[x] == dm || exists|y: int|
                0 <= y < old(v)@.len() && final(v)@[x] == old(v)@[y]),
        forall|x: int|
            0 <= x < final(v)@.len() ==> ((#[trigger] final(v)@[x]).to_ai@ == dm.to_ai@
                || exists|y: int| 0 <= y < old(v)@.len() && final(v)@[x] == old(v)@[y]),
{
    let n = v.len();
    let mut pos: usize = 0;
    while pos < n && v[pos].timestamp >= dm.timestamp
        invariant
            n == v@.len(),
            pos <= n,
            v@ == old(v)@,
            forall|x: int| 0 <= x < pos ==> (#[trigger] v@[x]).timestamp >= dm.timestamp,
        decreases n - pos,
    {
        pos = pos + 1;
    }
    proof {
        assert(pos == n || v@[pos as int].timestamp < dm.timestamp);
    }
    let ghost insert_at = pos as int;
    proof {
        assert(v@ == old(v)@);
    }
    v.insert(pos, dm);
    proof {
        assert forall|x: int, y: int|
            0 <= x < y < v@.len() implies (#[trigger] v@[x]).timestamp
            >= (#[trigger] v@[y]).timestamp by {
            let before = old(v)@;
            if x < insert_at && y < insert_at {
                assert(v@[x] == before[x] && v@[y] == before[y]);
            } else if x < insert_at && y == insert_at {
                assert(v@[x] == before[x]);
            } else if x < insert_at && y > insert_at {
                assert(v@[x] == before[x] && v@[y] == before[y - 1]);
            } else if x == insert_at && y > insert_at {
                assert(v@[y] == before[y - 1]);
                assert(insert_at < before.len() ==> before[insert_at].timestamp < dm.timestamp);
            } else {
                assert(v@[x] == before[x - 1] && v@[y] == before[y - 1]);
            }
        }
        assert forall|x: int|
            0 <= x < v@.len() implies (v@[x] == dm || exists|y: int|
            0 <= y < old(v)@.len() && v@[x] == old(v)@[y]) by {
            if x < insert_at {
                assert(v@[x] == old(v)@[x]);
            } else if x > insert_at {
                assert(v@[x] == old(v)@[x - 1]);
            }
        }
    }
}

/// Inserts a broadcast into a list kept sorted newest-first.
fn insert_broadcast_sorted(v: &mut Vec<StoredBroadcast>, bc: StoredBroadcast)
    requires
        forall|x: int, y: int|
            0 <= x < y < old(v)@.len() ==> (#[trigger] old(v)@[x]).timestamp
                >= (#[trigger] old(v)@[y]).timestamp,
    ensures
        final(v)@.len() == old(v)@.len() + 1,
        forall|x: int, y: int|
            0 <= x < y < final(v)@.len() ==> (#[trigger] final(v)@[x]).timestamp
                >= (#[trigger] final(v)@[y]).timestamp,
        forall|x: int|
            0 <= x < final(v)@.len() ==> (final(v)@[x] == bc || exists|y: int|
                0 <= y < old(v)@.len() && final(v)@[x] == old(v)@[y]),
{
    let n = v.len();
    let mut pos: usize = 0;
    while pos < n && v[pos].timestamp >= bc.timestamp
        invariant
            n == v@.len(),
            pos <= n,
            v@ == old(v)@,
            forall|x: int| 0 <= x < pos ==> (#[trigger] v@[x]).timestamp >= bc.timestamp,
        decreases n - pos,
    {
        pos = pos + 1;
    }
    proof {
        assert(pos == n || v@[pos as int].timestamp < bc.timestamp);
    }
    let ghost insert_at = pos as int;
    v.insert(pos, bc);
    proof {
        assert forall|x: int, y: int|
            0 <= x < y < v@.len() implies (#[trigger] v@[x]).timestamp
            >= (#[trigger] v@[y]).timestamp by {
            let before = old(v)@;
            if x < insert_at && y < insert_at {
                assert(v@[x] == before[x] && v@[y] == before[y]);
            } else if x < insert_at && y == insert_at {
                assert(v@[x] == before[x]);
            } else if x < insert_at && y > insert_at {
                assert(v@[x] == before[x] && v@[y] == before[y - 1]);
            } else if x == insert_at && y > insert_at {
                assert(v@[y] == before[y - 1]);
                assert(insert_at < before.len() ==> before[insert_at].timestamp < bc.timestamp);
            } else {
                assert(v@[x] == before[x - 1] && v@[y] == before[y - 1]);
            }
        }
        assert forall|x: int|
            0 <= x < v@.len() implies (v@[x] == bc || exists|y: int|
            0 <= y < old(v)@.len() && v@[x] == old(v)@[y]) by {
            if x < insert_at {
                assert(v@[x] == old(v)@[x]);
            } else if x > insert_at {
                assert(v@[x] == old(v)@[x - 1]);
            }
        }
    }
}


/// The encoding of a stored direct message.
pub open spec fn enc_dm_record(d: StoredDM) -> Seq<u8> {
    enc_u64(d.id) + enc_str(d.from_ai@) + enc_str(d.to_ai@) + enc_str(d.content@) + enc_u64(
        d.timestamp,
    ) + enc_bool(d.read) + enc_bool(d.synced)
}

/// The encoding of a stored broadcast.
pub open spec fn enc_broadcast_record(b: StoredBroadcast) -> Seq<u8> {
    enc_u64(b.id) + enc_str(b.from_ai@) + enc_str(b.channel@) + enc_str(b.content@) + enc_u64(
        b.timestamp,
    ) + enc_bool(b.synced)
}

/// The encoding of a stored presence record.
pub open spec fn enc_presence_record(p: StoredPresence) -> Seq<u8> {
    enc_str(p.ai_id@) + enc_str(p.status@) + enc_str(p.current_task@) + enc_u64(p.last_seen)
}

/// The encoding of a stored team member.
pub open spec fn enc_team_record(t: StoredTeamMember) -> Seq<u8> {
    enc_str(t.ai_id@) + enc_str(t.display_name@) + enc_str(t.status@)
        + crate::codec::enc_opt_str(t.current_activity)
}

/// The encoding of a stored federation member.
pub open spec fn enc_fed_record(f: StoredFederationMember) -> Seq<u8> {
    enc_str(f.member_id@) + enc_str(f.member_type@) + enc_str(f.display_name@) + enc_str(f.status@)
        + enc_str(f.registered_at@)
}

/// The encoding of a pending-sync item.
pub open spec fn enc_sync_item(x: SyncItem) -> Seq<u8> {
    match x {
        SyncItem::DM { local_id } => seq![0u8] + enc_u64(local_id),
        SyncItem::Broadcast { local_id } => seq![1u8] + enc_u64(local_id),
        SyncItem::Presence => seq![2u8],
    }
}

/// A counted section: the element count, then each element's encoding.
pub open spec fn enc_section<T>(v: Seq<T>, f: spec_fn(T) -> Seq<u8>) -> Seq<u8> {
    enc_u64(v.len() as u64) + enc_list(v, f)
}

/// The encoding of the whole store: each section length-prefixed, in field
/// order.
pub open spec fn enc_local_store(s: LocalStore) -> Seq<u8> {
    enc_u64(s.next_id) + enc_section(s.dms@, |d: StoredDM| enc_dm_record(d)) + enc_section(
        s.broadcasts@,
        |b: StoredBroadcast| enc_broadcast_record(b),
    ) + enc_section(s.presences@, |p: StoredPresence| enc_presence_record(p)) + enc_section(
        s.team_members@,
        |t: StoredTeamMember| enc_team_record(t),
    ) + enc_section(s.federation_members@, |f: StoredFederationMember| enc_fed_record(f))
        + enc_u64(s.last_sync) + enc_section(s.pending_sync@, |x: SyncItem| enc_sync_item(x))
}

impl LocalStore {
    /// Serializes the store to its canonical bytes.
    #[verifier::rlimit(60)]
    pub fn to_bytes(&self) -> (r: Vec<u8>)
        ensures
            r@ == enc_local_store(*self),
    {
        let mut buf: Vec<u8> = Vec::new();
        write_u64(&mut buf, self.next_id);
        write_dm_list(&mut buf, &self.dms);
        write_broadcast_list(&mut buf, &self.broadcasts);
        write_presence_list(&mut buf, &self.presences);
        write_team_list(&mut buf, &self.team_members);
        write_fed_list(&mut buf, &self.federation_members);
        write_u64(&mut buf, self.last_sync);
        write_sync_items(&mut buf, &self.pending_sync);
        proof {
            assert(buf@ =~= enc_local_store(*self));
        }
        buf
    }

    /// Deserializes a store from its canonical bytes; succeeds only when the
    /// whole input is the encoding of the result.
    pub fn from_bytes(data: &[u8]) -> (r: Option<LocalStore>)
        ensures
            r matches Some(s) ==> enc_local_store(s) == data@,
    {
        let (next_id, p1) = match read_u64(data, 0) {
            Some(x) => x,
            None => {
                return None;
            },
        };
        let (dms, p2) = match read_dm_list(data, p1) {
            Some(x) => x,
            None => {
                return None;
            },
        };
        let (broadcasts, p3) = match read_broadcast_list(data, p2) {
            Some(x) => x,
            None => {
                return None;
            },
        };
        let (presences, p4) = match read_presence_list(data, p3) {
            Some(x) => x,
            None => {
                return None;
            },
        };
        let (team_members, p5) = match read_team_list(data, p4) {
            Some(x) => x,
            None => {
                return None;
            },
        };
        let (federation_members, p6) = match read_fed_list(data, p5) {
            Some(x) => x,
            None => {
                return None;
            },
        };
        let (last_sync, p7) = match read_u64(data, p6) {
            Some(x) => x,
            None => {
                return None;
            },
        };
        let (pending_sync, p8) = match read_sync_items(data, p7) {
            Some(x) => x,
            None => {
                return None;
            },
        };
        if p8 != data.len() {
            return None;
        }
        let store = LocalStore {
            next_id,
            dms,
            broadcasts,
            presences,
            team_members,
            federation_members,
            last_sync,
            pending_sync,
        };
        proof {
            lemma_assemble_store(
                data@,
                p1 as int,
                p2 as int,
                p3 as int,
                p4 as int,
                p5 as int,
                p6 as int,
                p7 as int,
                p8 as int,
                store,
            );
        }
        Some(store)
    }
}

/// Reads a counted list of direct messages.
fn read_dm_list(buf: &[u8], pos: usize) -> (r: Option<(Vec<StoredDM>, usize)>)
    ensures
        r matches Some((v, end)) ==> pos <= end <= buf@.len() && buf@.subrange(
            pos as int,
            end as int,
        ) == enc_u64(v@.len() as u64) + enc_list(v@, |d: StoredDM| enc_dm_record(d)),
{
    let ghost f = |d: StoredDM| enc_dm_record(d);
    let (n, p1) = match read_u64(buf, pos) {
        Some(x) => x,
        None => {
            return None;
        },
    };
    let mut out: Vec<StoredDM> = Vec::new();
    let mut cur: usize = p1;
    let mut i: u64 = 0;
    proof {
        assert(buf@.subrange(p1 as int, cur as int) =~= enc_list(out@, f));
    }
    while i < n
        invariant
            pos <= p1 <= cur <= buf@.len(),
            i <= n,
            out@.len() == i,
            f == (|d: StoredDM| enc_dm_record(d)),
            buf@.subrange(pos as int, p1 as int) == enc_u64(n),
            buf@.subrange(p1 as int, cur as int) == enc_list(out@, f),
        decreases n - i,
    {
        let (id, q1) = match read_u64(buf, cur) {
            Some(x) => x,
            None => {
                return None;
            },
        };
        let (from_ai, q2) = match read_str(buf, q1) {
            Some(x) => x,
            None => {
                return None;
            },
        };
        let (to_ai, q3) = match read_str(buf, q2) {
            Some(x) => x,
            None => {
                return None;
            },
        };
        let (content, q4) = match read_str(buf, q3) {
            Some(x) => x,
            None => {
                return None;
            },
        };
        let (timestamp, q5) = match read_u64(buf, q4) {
            Some(x) => x,
            None => {
                return None;
            },
        };
        let (read_flag, q6) = match read_bool(buf, q5) {
            Some(x) => x,
            None => {
                return None;
            },
        };
        let (synced, q7) = match read_bool(buf, q6) {
            Some(x) => x,
            None => {
                return None;
            },
        };
        let record = StoredDM { id, from_ai, to_ai, content, timestamp, read: read_flag, synced };
        let ghost out_before = out@;
        let ghost rec = record;
        out.push(record);
        proof {
            assert(buf@.subrange(cur as int, q7 as int) =~= buf@.subrange(cur as int, q1 as int)
                + buf@.subrange(q1 as int, q2 as int) + buf@.subrange(q2 as int, q3 as int)
                + buf@.subrange(q3 as int, q4 as int) + buf@.subrange(q4 as int, q5 as int)
                + buf@.subrange(q5 as int, q6 as int) + buf@.subrange(q6 as int, q7 as int));
            assert(buf@.subrange(cur as int, q7 as int) =~= enc_dm_record(rec));
            lemma_enc_list_push(out_before, rec, f);
            assert(buf@.subrange(p1 as int, q7 as int) =~= buf@.subrange(p1 as int, cur as int)
                + buf@.subrange(cur as int, q7 as int));
            assert(buf@.subrange(p1 as int, q7 as int) =~= enc_list(out@, f));
        }
        cur = q7;
        i = i + 1;
    }
    proof {
        assert(buf@.subrange(pos as int, cur as int) =~= buf@.subrange(pos as int, p1 as int)
            + buf@.subrange(p1 as int, cur as int));
    }
    Some((out, cur))
}

/// Reads a counted list of broadcasts.
fn read_broadcast_list(buf: &[u8], pos: usize) -> (r: Option<(Vec<StoredBroadcast>, usize)>)
    ensures
        r matches Some((v, end)) ==> pos <= end <= buf@.len() && buf@.subrange(
            pos as int,
            end as int,
        ) == enc_u64(v@.len() as u64) + enc_list(v@, |b: StoredBroadcast| enc_broadcast_record(b)),
{
    let ghost f = |b: StoredBroadcast| enc_broadcast_record(b);
    let (n, p1) = match read_u64(buf, pos) {
        Some(x) => x,
        None => {
            return None;
        },
    };
    let mut out: Vec<StoredBroadcast> = Vec::new();
    let mut cur: usize = p1;
    let mut i: u64 = 0;
    proof {
        assert(buf@.subrange(p1 as int, cur as int) =~= enc_list(out@, f));
    }
    while i < n
        invariant
            pos <= p1 <= cur <= buf@.len(),
            i <= n,
            out@.len() == i,
            f == (|b: StoredBroadcast| enc_broadcast_record(b)),
            buf@.subrange(pos as int, p1 as int) == enc_u64(n),
            buf@.subrange(p1 as int, cur as int) == enc_list(out@, f),
        decreases n - i,
    {
        let (id, q1) = match read_u64(buf, cur) {
            Some(x) => x,
            None => {
                return None;
            },
        };
        let (from_ai, q2) = match read_str(buf, q1) {
            Some(x) => x,
            None => {
                return None;
            },
        };
        let (channel, q3) = match read_str(buf, q2) {
            Some(x) => x,
            None => {
                return None;
            },
        };
        let (content, q4) = match read_str(buf, q3) {
            Some(x) => x,
            None => {
                return None;
            },
        };
        let (timestamp, q5) = match read_u64(buf, q4) {
            Some(x) => x,
            None => {
                return None;
            },
        };
        let (synced, q6) = match read_bool(buf, q5) {
            Some(x) => x,
            None => {
                return None;
            },
        };
        let record = StoredBroadcast { id, from_ai, channel, content, timestamp, synced };
        let ghost out_before = out@;
        let ghost rec = record;
        out.push(record);
        proof {
            assert(buf@.subrange(cur as int, q6 as int) =~= buf@.subrange(cur as int, q1 as int)
                + buf@.subrange(q1 as int, q2 as int) + buf@.subrange(q2 as int, q3 as int)
                + buf@.subrange(q3 as int, q4 as int) + buf@.subrange(q4 as int, q5 as int)
                + buf@.subrange(q5 as int, q6 as int));
            assert(buf@.subrange(cur as int, q6 as int) =~= enc_broadcast_record(rec));
            lemma_enc_list_push(out_before, rec, f);
            assert(buf@.subrange(p1 as int, q6 as int) =~= buf@.subrange(p1 as int, cur as int)
                + buf@.subrange(cur as int, q6 as int));
            assert(buf@.subrange(p1 as int, q6 as int) =~= enc_list(out@, f));
        }
        cur = q6;
        i = i + 1;
    }
    proof {
        assert(buf@.subrange(pos as int, cur as int) =~= buf@.subrange(pos as int, p1 as int)
            + buf@.subrange(p1 as int, cur as int));
    }
    Some((out, cur))
}

/// Reads a counted list of presence records.
fn read_presence_list(buf: &[u8], pos: usize) -> (r: Option<(Vec<StoredPresence>, usize)>)
    ensures
        r matches Some((v, end)) ==> pos <= end <= buf@.len() && buf@.subrange(
            pos as int,
            end as int,
        ) == enc_u64(v@.len() as u64) + enc_list(v@, |p: StoredPresence| enc_presence_record(p)),
{
    let ghost f = |p: StoredPresence| enc_presence_record(p);
    let (n, p1) = match read_u64(buf, pos) {
        Some(x) => x,
        None => {
            return None;
        },
    };
    let mut out: Vec<StoredPresence> = Vec::new();
    let mut cur: usize = p1;
    let mut i: u64 = 0;
    proof {
        assert(buf@.subrange(p1 as int, cur as int) =~= enc_list(out@, f));
    }
    while i < n
        invariant
            pos <= p1 <= cur <= buf@.len(),
            i <= n,
            out@.len() == i,
            f == (|p: StoredPresence| enc_presence_record(p)),
            buf@.subrange(pos as int, p1 as int) == enc_u64(n),
            buf@.subrange(p1 as int, cur as int) == enc_list(out@, f),
        decreases n - i,
    {
        let (ai_id, q1) = match read_str(buf, cur) {
            Some(x) => x,
            None => {
                return None;
            },
        };
        let (status, q2) = match read_str(buf, q1) {
            Some(x) => x,
            None => {
                return None;
            },
        };
        let (current_task, q3) = match read_str(buf, q2) {
            Some(x) => x,
            None => {
                return None;
            },
        };
        let (last_seen, q4) = match read_u64(buf, q3) {
            Some(x) => x,
            None => {
                return None;
            },
        };
        let record = StoredPresence { ai_id, status, current_task, last_seen };
        let ghost out_before = out@;
        let ghost rec = record;
        out.push(record);
        proof {
            assert(buf@.subrange(cur as int, q4 as int) =~= buf@.subrange(cur as int, q1 as int)
                + buf@.subrange(q1 as int, q2 as int) + buf@.subrange(q2 as int, q3 as int)
                + buf@.subrange(q3 as int, q4 as int));
            assert(buf@.subrange(cur as int, q4 as int) =~= enc_presence_record(rec));
            lemma_enc_list_push(out_before, rec, f);
            assert(buf@.subrange(p1 as int, q4 as int) =~= buf@.subrange(p1 as int, cur as int)
                + buf@.subrange(cur as int, q4 as int));
            assert(buf@.subrange(p1 as int, q4 as int) =~= enc_list(out@, f));
        }
        cur = q4;
        i = i + 1;
    }
    proof {
        assert(buf@.subrange(pos as int, cur as int) =~= buf@.subrange(pos as int, p1 as int)
            + buf@.subrange(p1 as int, cur as int));
    }
    Some((out, cur))
}

/// Reads a counted list of team members.
fn read_team_list(buf: &[u8], pos: usize) -> (r: Option<(Vec<StoredTeamMember>, usize)>)
    ensures
        r matches Some((v, end)) ==> pos <= end <= buf@.len() && buf@.subrange(
            pos as int,
            end as int,
        ) == enc_u64(v@.len() as u64) + enc_list(v@, |t: StoredTeamMember| enc_team_record(t)),
{
    let ghost f = |t: StoredTeamMember| enc_team_record(t);
    let (n, p1) = match read_u64(buf, pos) {
        Some(x) => x,
        None => {
            return None;
        },
    };
    let mut out: Vec<StoredTeamMember> = Vec::new();
    let mut cur: usize = p1;
    let mut i: u64 = 0;
    proof {
        assert(buf@.subrange(p1 as int, cur as int) =~= enc_list(out@, f));
    }
    while i < n
        invariant
            pos <= p1 <= cur <= buf@.len(),
            i <= n,
            out@.len() == i,
            f == (|t: StoredTeamMember| enc_team_record(t)),
            buf@.subrange(pos as int, p1 as int) == enc_u64(n),
            buf@.subrange(p1 as int, cur as int) == enc_list(out@, f),
        decreases n - i,
    {
        let (ai_id, q1) = match read_str(buf, cur) {
            Some(x) => x,
            None => {
                return None;
            },
        };
        let (display_name, q2) = match read_str(buf, q1) {
            Some(x) => x,
            None => {
                return None;
            },
        };
        let (status, q3) = match read_str(buf, q2) {
            Some(x) => x,
            None => {
                return None;
            },
        };
        let (current_activity, q4) = match crate::codec::read_opt_str(buf, q3) {
            Some(x) => x,
            None => {
                return None;
            },
        };
        let record = StoredTeamMember { ai_id, display_name, status, current_activity };
        let ghost out_before = out@;
        let ghost rec = record;
        out.push(record);
        proof {
            assert(buf@.subrange(cur as int, q4 as int) =~= buf@.subrange(cur as int, q1 as int)
                + buf@.subrange(q1 as int, q2 as int) + buf@.subrange(q2 as int, q3 as int)
                + buf@.subrange(q3 as int, q4 as int));
            assert(buf@.subrange(cur as int, q4 as int) =~= enc_team_record(rec));
            lemma_enc_list_push(out_before, rec, f);
            assert(buf@.subrange(p1 as int, q4 as int) =~= buf@.subrange(p1 as int, cur as int)
                + buf@.subrange(cur as int, q4 as int));
            assert(buf@.subrange(p1 as int, q4 as int) =~= enc_list(out@, f));
        }
        cur = q4;
        i = i + 1;
    }
    proof {
        assert(buf@.subrange(pos as int, cur as int) =~= buf@.subrange(pos as int, p1 as int)
            + buf@.subrange(p1 as int, cur as int));
    }
    Some((out, cur))
}

/// Reads a counted list of federation members.
fn read_fed_list(buf: &[u8], pos: usize) -> (r: Option<(Vec<StoredFederationMember>, usize)>)
    ensures
        r matches Some((v, end)) ==> pos <= end <= buf@.len() && buf@.subrange(
            pos as int,
            end as int,
        ) == enc_u64(v@.len() as u64) + enc_list(
            v@,
            |x: StoredFederationMember| enc_fed_record(x),
        ),
{
    let ghost f = |x: StoredFederationMember| enc_fed_record(x);
    let (n, p1) = match read_u64(buf, pos) {
        Some(x) => x,
        None => {
            return None;
        },
    };
    let mut out: Vec<StoredFederationMember> = Vec::new();
    let mut cur: usize = p1;
    let mut i: u64 = 0;
    proof {
        assert(buf@.subrange(p1 as int, cur as int) =~= enc_list(out@, f));
    }
    while i < n
        invariant
            pos <= p1 <= cur <= buf@.len(),
            i <= n,
            out@.len() == i,
            f == (|x: StoredFederationMember| enc_fed_record(x)),
            buf@.subrange(pos as int, p1 as int) == enc_u64(n),
            buf@.subrange(p1 as int, cur as int) == enc_list(out@, f),
        decreases n - i,
    {
        let (member_id, q1) = match read_str(buf, cur) {
            Some(x) => x,
            None => {
                return None;
            },
        };
        let (member_type, q2) = match read_str(buf, q1) {
            Some(x) => x,
            None => {
                return None;
            },
        };
        let (display_name, q3) = match read_str(buf, q2) {
            Some(x) => x,
            None => {
                return None;
            },
        };
        let (status, q4) = match read_str(buf, q3) {
            Some(x) => x,
            None => {
                return None;
            },
        };
        let (registered_at, q5) = match read_str(buf, q4) {
            Some(x) => x,
            None => {
                return None;
            },
        };
        let record = StoredFederationMember {
            member_id,
            member_type,
            display_name,
            status,
            registered_at,
        };
        let ghost out_before = out@;
        let ghost rec = record;
        out.push(record);
        proof {
            assert(buf@.subrange(cur as int, q5 as int) =~= buf@.subrange(cur as int, q1 as int)
                + buf@.subrange(q1 as int, q2 as int) + buf@.subrange(q2 as int, q3 as int)
                + buf@.subrange(q3 as int, q4 as int) + buf@.subrange(q4 as int, q5 as int));
            assert(buf@.subrange(cur as int, q5 as int) =~= enc_fed_record(rec));
            lemma_enc_list_push(out_before, rec, f);
            assert(buf@.subrange(p1 as int, q5 as int) =~= buf@.subrange(p1 as int, cur as int)
                + buf@.subrange(cur as int, q5 as int));
            assert(buf@.subrange(p1 as int, q5 as int) =~= enc_list(out@, f));
        }
        cur = q5;
        i = i + 1;
    }
    proof {
        assert(buf@.subrange(pos as int, cur as int) =~= buf@.subrange(pos as int, p1 as int)
            + buf@.subrange(p1 as int, cur as int));
    }
    Some((out, cur))
}

/// Reads a counted list of pending-sync items.
fn read_sync_items(buf: &[u8], pos: usize) -> (r: Option<(Vec<SyncItem>, usize)>)
    ensures
        r matches Some((v, end)) ==> pos <= end <= buf@.len() && buf@.subrange(
            pos as int,
            end as int,
        ) == enc_u64(v@.len() as u64) + enc_list(v@, |x: SyncItem| enc_sync_item(x)),
{
    let ghost f = |x: SyncItem| enc_sync_item(x);
    let (n, p1) = match read_u64(buf, pos) {
        Some(x) => x,
        None => {
            return None;
        },
    };
    let mut out: Vec<SyncItem> = Vec::new();
    let mut cur: usize = p1;
    let mut i: u64 = 0;
    proof {
        assert(buf@.subrange(p1 as int, cur as int) =~= enc_list(out@, f));
    }
    while i < n
        invariant
            pos <= p1 <= cur <= buf@.len(),
            i <= n,
            out@.len() == i,
            f == (|x: SyncItem| enc_sync_item(x)),
            buf@.subrange(pos as int, p1 as int) == enc_u64(n),
            buf@.subrange(p1 as int, cur as int) == enc_list(out@, f),
        decreases n - i,
    {
        let (tag, q1) = match crate::codec::read_u8(buf, cur) {
            Some(x) => x,
            None => {
                return None;
            },
        };
        let (item, q2): (SyncItem, usize) = if tag == 0 {
            match read_u64(buf, q1) {
                Some((local_id, e)) => (SyncItem::DM { local_id }, e),
                None => {
                    return None;
                },
            }
        } else if tag == 1 {
            match read_u64(buf, q1) {
                Some((local_id, e)) => (SyncItem::Broadcast { local_id }, e),
                None => {
                    return None;
                },
            }
        } else if tag == 2 {
            (SyncItem::Presence, q1)
        } else {
            return None;
        };
        let ghost out_before = out@;
        let ghost rec = item;
        out.push(item);
        proof {
            assert(buf@.subrange(cur as int, q2 as int) =~= buf@.subrange(cur as int, q1 as int)
                + buf@.subrange(q1 as int, q2 as int));
            assert(buf@.subrange(cur as int, q2 as int) =~= enc_sync_item(rec));
            lemma_enc_list_push(out_before, rec, f);
            assert(buf@.subrange(p1 as int, q2 as int) =~= buf@.subrange(p1 as int, cur as int)
                + buf@.subrange(cur as int, q2 as int));
            assert(buf@.subrange(p1 as int, q2 as int) =~= enc_list(out@, f));
        }
        cur = q2;
        i = i + 1;
    }
    proof {
        assert(buf@.subrange(pos as int, cur as int) =~= buf@.subrange(pos as int, p1 as int)
            + buf@.subrange(p1 as int, cur as int));
    }
    Some((out, cur))
}


/// Appends a counted list of direct messages.
#[verifier::rlimit(100)]
fn write_dm_list(buf: &mut Vec<u8>, v: &Vec<StoredDM>)
    ensures
        final(buf)@ == old(buf)@ + enc_u64(v@.len() as u64) + enc_list(
            v@,
            |d: StoredDM| enc_dm_record(d),
        ),
{
    let ghost f = |d: StoredDM| enc_dm_record(d);
    write_u64(buf, v.len() as u64);
    let ghost base = buf@;
    let mut i: usize = 0;
    proof {
        assert(buf@ =~= base + enc_list(v@.subrange(0, 0), f));
    }
    while i < v.len()
        invariant
            i <= v@.len(),
            f == (|d: StoredDM| enc_dm_record(d)),
            buf@ == base + enc_list(v@.subrange(0, i as int), f),
        decreases v@.len() - i,
    {
        let d = &v[i];
        write_u64(buf, d.id);
        write_str(buf, d.from_ai.as_str());
        write_str(buf, d.to_ai.as_str());
        write_str(buf, d.content.as_str());
        write_u64(buf, d.timestamp);
        write_bool(buf, d.read);
        write_bool(buf, d.synced);
        proof {
            lemma_enc_list_push(v@.subrange(0, i as int), v@[i as int], f);
            assert(v@.subrange(0, i + 1) =~= v@.subrange(0, i as int).push(v@[i as int]));
            assert(buf@ =~= base + enc_list(v@.subrange(0, i + 1), f));
        }
        i = i + 1;
    }
    proof {
        assert(v@.subrange(0, v@.len() as int) =~= v@);
        assert(buf@ =~= old(buf)@ + enc_u64(v@.len() as u64) + enc_list(v@, f));
    }
}

/// Appends a counted list of broadcasts.
fn write_broadcast_list(buf: &mut Vec<u8>, v: &Vec<StoredBroadcast>)
    ensures
        final(buf)@ == old(buf)@ + enc_u64(v@.len() as u64) + enc_list(
            v@,
            |b: StoredBroadcast| enc_broadcast_record(b),
        ),
{
    let ghost f = |b: StoredBroadcast| enc_broadcast_record(b);
    write_u64(buf, v.len() as u64);
    let ghost base = buf@;
    let mut i: usize = 0;
    proof {
        assert(buf@ =~= base + enc_list(v@.subrange(0, 0), f));
    }
    while i < v.len()
        invariant
            i <= v@.len(),
            f == (|b: StoredBroadcast| enc_broadcast_record(b)),
            buf@ == base + enc_list(v@.subrange(0, i as int), f),
        decreases v@.len() - i,
    {
        let b = &v[i];
        write_u64(buf, b.id);
        write_str(buf, b.from_ai.as_str());
        write_str(buf, b.channel.as_str());
        write_str(buf, b.content.as_str());
        write_u64(buf, b.timestamp);
        write_bool(buf, b.synced);
        proof {
            lemma_enc_list_push(v@.subrange(0, i as int), v@[i as int], f);
            assert(v@.subrange(0, i + 1) =~= v@.subrange(0, i as int).push(v@[i as int]));
            assert(buf@ =~= base + enc_list(v@.subrange(0, i + 1), f));
        }
        i = i + 1;
    }
    proof {
        assert(v@.subrange(0, v@.len() as int) =~= v@);
        assert(buf@ =~= old(buf)@ + enc_u64(v@.len() as u64) + enc_list(v@, f));
    }
}

/// Appends a counted list of presence records.
fn write_presence_list(buf: &mut Vec<u8>, v: &Vec<StoredPresence>)
    ensures
        final(buf)@ == old(buf)@ + enc_u64(v@.len() as u64) + enc_list(
            v@,
            |p: StoredPresence| enc_presence_record(p),
        ),
{
    let ghost f = |p: StoredPresence| enc_presence_record(p);
    write_u64(buf, v.len() as u64);
    let ghost base = buf@;
    let mut i: usize = 0;
    proof {
        assert(buf@ =~= base + enc_list(v@.subrange(0, 0), f));
    }
    while i < v.len()
        invariant
            i <= v@.len(),
            f == (|p: StoredPresence| enc_presence_record(p)),
            buf@ == base + enc_list(v@.subrange(0, i as int), f),
        decreases v@.len() - i,
    {
        let p = &v[i];
        write_str(buf, p.ai_id.as_str());
        write_str(buf, p.status.as_str());
        write_str(buf, p.current_task.as_str());
        write_u64(buf, p.last_seen);
        proof {
            lemma_enc_list_push(v@.subrange(0, i as int), v@[i as int], f);
            assert(v@.subrange(0, i + 1) =~= v@.subrange(0, i as int).push(v@[i as int]));
            assert(buf@ =~= base + enc_list(v@.subrange(0, i + 1), f));
        }
        i = i + 1;
    }
    proof {
        assert(v@.subrange(0, v@.len() as int) =~= v@);
        assert(buf@ =~= old(buf)@ + enc_u64(v@.len() as u64) + enc_list(v@, f));
    }
}

/// Appends a counted list of team members.
fn write_team_list(buf: &mut Vec<u8>, v: &Vec<StoredTeamMember>)
    ensures
        final(buf)@ == old(buf)@ + enc_u64(v@.len() as u64) + enc_list(
            v@,
            |t: StoredTeamMember| enc_team_record(t),
        ),
{
    let ghost f = |t: StoredTeamMember| enc_team_record(t);
    write_u64(buf, v.len() as u64);
    let ghost base = buf@;
    let mut i: usize = 0;
    proof {
        assert(buf@ =~= base + enc_list(v@.subrange(0, 0), f));
    }
    while i < v.len()
        invariant
            i <= v@.len(),
            f == (|t: StoredTeamMember| enc_team_record(t)),
            buf@ == base + enc_list(v@.subrange(0, i as int), f),
        decreases v@.len() - i,
    {
        let t = &v[i];
        write_str(buf, t.ai_id.as_str());
        write_str(buf, t.display_name.as_str());
        write_str(buf, t.status.as_str());
        crate::codec::write_opt_str(buf, &t.current_activity);
        proof {
            lemma_enc_list_push(v@.subrange(0, i as int), v@[i as int], f);
            assert(v@.subrange(0, i + 1) =~= v@.subrange(0, i as int).push(v@[i as int]));
            assert(buf@ =~= base + enc_list(v@.subrange(0, i + 1), f));
        }
        i = i + 1;
    }
    proof {
        assert(v@.subrange(0, v@.len() as int) =~= v@);
        assert(buf@ =~= old(buf)@ + enc_u64(v@.len() as u64) + enc_list(v@, f));
    }
}

/// Appends a counted list of federation members.
fn write_fed_list(buf: &mut Vec<u8>, v: &Vec<StoredFederationMember>)
    ensures
        final(buf)@ == old(buf)@ + enc_u64(v@.len() as u64) + enc_list(
            v@,
            |x: StoredFederationMember| enc_fed_record(x),
        ),
{
    let ghost f = |x: StoredFederationMember| enc_fed_record(x);
    write_u64(buf, v.len() as u64);
    let ghost base = buf@;
    let mut i: usize = 0;
    proof {
        assert(buf@ =~= base + enc_list(v@.subrange(0, 0), f));
    }
    while i < v.len()
        invariant
            i <= v@.len(),
            f == (|x: StoredFederationMember| enc_fed_record(x)),
            buf@ == base + enc_list(v@.subrange(0, i as int), f),
        decreases v@.len() - i,
    {
        let m = &v[i];
        write_str(buf, m.member_id.as_str());
        write_str(buf, m.member_type.as_str());
        write_str(buf, m.display_name.as_str());
        write_str(buf, m.status.as_str());
        write_str(buf, m.registered_at.as_str());
        proof {
            lemma_enc_list_push(v@.subrange(0, i as int), v@[i as int], f);
            assert(v@.subrange(0, i + 1) =~= v@.subrange(0, i as int).push(v@[i as int]));
            assert(buf@ =~= base + enc_list(v@.subrange(0, i + 1), f));
        }
        i = i + 1;
    }
    proof {
        assert(v@.subrange(0, v@.len() as int) =~= v@);
        assert(buf@ =~= old(buf)@ + enc_u64(v@.len() as u64) + enc_list(v@, f));
    }
}

/// Appends a counted list of pending-sync items.
fn write_sync_items(buf: &mut Vec<u8>, v: &Vec<SyncItem>)
    ensures
        final(buf)@ == old(buf)@ + enc_u64(v@.len() as u64) + enc_list(
            v@,
            |x: SyncItem| enc_sync_item(x),
        ),
{
    let ghost f = |x: SyncItem| enc_sync_item(x);
    write_u64(buf, v.len() as u64);
    let ghost base = buf@;
    let mut i: usize = 0;
    proof {
        assert(buf@ =~= base + enc_list(v@.subrange(0, 0), f));
    }
    while i < v.len()
        invariant
            i <= v@.len(),
            f == (|x: SyncItem| enc_sync_item(x)),
            buf@ == base + enc_list(v@.subrange(0, i as int), f),
        decreases v@.len() - i,
    {
        match v[i] {
            SyncItem::DM { local_id } => {
                crate::codec::write_u8(buf, 0);
                write_u64(buf, local_id);
            },
            SyncItem::Broadcast { local_id } => {
                crate::codec::write_u8(buf, 1);
                write_u64(buf, local_id);
            },
            SyncItem::Presence => {
                crate::codec::write_u8(buf, 2);
            },
        }
        proof {
            lemma_enc_list_push(v@.subrange(0, i as int), v@[i as int], f);
            assert(v@.subrange(0, i + 1) =~= v@.subrange(0, i as int).push(v@[i as int]));
            assert(buf@ =~= base + enc_list(v@.subrange(0, i + 1), f));
        }
        i = i + 1;
    }
    proof {
        assert(v@.subrange(0, v@.len() as int) =~= v@);
        assert(buf@ =~= old(buf)@ + enc_u64(v@.len() as u64) + enc_list(v@, f));
    }
}


/// Stitches the decoded sections back into the whole store encoding.
#[verifier::rlimit(100)]
proof fn lemma_assemble_store(
    data: Seq<u8>,
    p1: int,
    p2: int,
    p3: int,
    p4: int,
    p5: int,
    p6: int,
    p7: int,
    p8: int,
    store: LocalStore,
)
    requires
        0 <= p1 <= p2 <= p3 <= p4 <= p5 <= p6 <= p7 <= p8 == data.len(),
        data.subrange(0, p1) == enc_u64(store.next_id),
        data.subrange(p1, p2) == enc_u64(store.dms@.len() as u64) + enc_list(
            store.dms@,
            |d: StoredDM| enc_dm_record(d),
        ),
        data.subrange(p2, p3) == enc_u64(store.broadcasts@.len() as u64) + enc_list(
            store.broadcasts@,
            |b: StoredBroadcast| enc_broadcast_record(b),
        ),
        data.subrange(p3, p4) == enc_u64(store.presences@.len() as u64) + enc_list(
            store.presences@,
            |p: StoredPresence| enc_presence_record(p),
        ),
        data.subrange(p4, p5) == enc_u64(store.team_members@.len() as u64) + enc_list(
            store.team_members@,
            |t: StoredTeamMember| enc_team_record(t),
        ),
        data.subrange(p5, p6) == enc_u64(store.federation_members@.len() as u64) + enc_list(
            store.federation_members@,
            |x: StoredFederationMember| enc_fed_record(x),
        ),
        data.subrange(p6, p7) == enc_u64(store.last_sync),
        data.subrange(p7, p8) == enc_u64(store.pending_sync@.len() as u64) + enc_list(
            store.pending_sync@,
            |x: SyncItem| enc_sync_item(x),
        ),
    ensures
        enc_local_store(store) == data,
{
    assert(data.subrange(0, data.len() as int) =~= data);
    assert(data.subrange(0, p4) =~= data.subrange(0, p1) + data.subrange(p1, p2) + data.subrange(
        p2,
        p3,
    ) + data.subrange(p3, p4));
    assert(data.subrange(p4, p8) =~= data.subrange(p4, p5) + data.subrange(p5, p6)
        + data.subrange(p6, p7) + data.subrange(p7, p8));
    assert(data =~= data.subrange(0, p4) + data.subrange(p4, p8));
    assert(enc_local_store(store) =~= data.subrange(0, p4) + data.subrange(p4, p8));
}

} // verus!
