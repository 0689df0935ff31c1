//! The routing registry: endpoint paths, outbound senders, and topic
//! membership, together with broadcast fan-out.
//!
//! The registry is a value owned by the caller; the surrounding
//! application decides how to share it between tasks.

use vstd::prelude::*;
use tokio::sync::mpsc::Sender;
use crate::event::Event;
use crate::handler::into_response::IntoResponse;
use crate::message::Message;
use crate::topic::Topic;
use crate::user_id::UserId;

verus! {

/// One membership row: a connection id joined to a topic of an endpoint
/// path.
type MemberRow = (String, Topic, UserId);

/// The process-wide tables: endpoint paths by tag, outbound senders by
/// connection id, and membership rows.
pub struct WebSocketState {
    paths: Vec<(u64, String)>,
    senders: Vec<(String, Sender<Message>)>,
    members: Vec<MemberRow>,
}

/// The map an association list stands for; later entries win.
pub closed spec fn path_map(entries: Seq<(u64, String)>) -> Map<u64, Seq<char>>
    decreases entries.len(),
{
    if entries.len() == 0 {
        Map::empty()
    } else {
        path_map(entries.drop_last()).insert(entries.last().0, entries.last().1@)
    }
}

/// The ids an association list of senders holds.
pub closed spec fn id_set(entries: Seq<(String, Sender<Message>)>) -> Set<Seq<char>>
    decreases entries.len(),
{
    if entries.len() == 0 {
        Set::empty()
    } else {
        id_set(entries.drop_last()).insert(entries.last().0@)
    }
}

/// The membership rows as plain text triples.
pub open spec fn row_views(rows: Seq<MemberRow>) -> Seq<(Seq<char>, Seq<char>, Seq<char>)> {
    rows.map(|i: int, r: MemberRow| (r.0@, r.1@, r.2@))
}

/// The ids a list of members holds.
pub open spec fn ids_in(list: Seq<UserId>) -> Set<Seq<char>>
    decreases list.len(),
{
    if list.len() == 0 {
        Set::empty()
    } else {
        ids_in(list.drop_last()).insert(list.last()@)
    }
}

/// The members of `(path, topic)` among the given rows.
pub open spec fn rows_members(
    rows: Seq<(Seq<char>, Seq<char>, Seq<char>)>,
    path: Seq<char>,
    topic: Seq<char>,
) -> Set<Seq<char>>
    decreases rows.len(),
{
    if rows.len() == 0 {
        Set::empty()
    } else {
        let prev = rows_members(rows.drop_last(), path, topic);
        if rows.last().0 == path && rows.last().1 == topic {
            prev.insert(rows.last().2)
        } else {
            prev
        }
    }
}

/// An id is a member exactly when some row names it.
pub proof fn lemma_rows_members_contains(
    rows: Seq<(Seq<char>, Seq<char>, Seq<char>)>,
    path: Seq<char>,
    topic: Seq<char>,
    id: Seq<char>,
)
    ensures
        rows_members(rows, path, topic).contains(id) <==> exists|i: int|
            0 <= i < rows.len() && rows[i] == (path, topic, id),
    decreases rows.len(),
{
    if rows.len() > 0 {
        lemma_rows_members_contains(rows.drop_last(), path, topic, id);
        if rows_members(rows, path, topic).contains(id) {
            if rows.last() == (path, topic, id) {
                assert(rows[rows.len() - 1] == (path, topic, id));
            } else {
                let i = choose|i: int|
                    0 <= i < rows.drop_last().len() && rows.drop_last()[i] == (path, topic, id);
                assert(rows[i] == (path, topic, id));
            }
        }
        if exists|i: int| 0 <= i < rows.len() && rows[i] == (path, topic, id) {
            let i = choose|i: int| 0 <= i < rows.len() && rows[i] == (path, topic, id);
            if i < rows.len() - 1 {
                assert(rows.drop_last()[i] == (path, topic, id));
            }
        }
    }
}

impl WebSocketState {
    /// The registered endpoint paths, by tag.
    pub closed spec fn paths(&self) -> Map<u64, Seq<char>> {
        path_map(self.paths@)
    }

    /// The connection ids with a registered outbound sender.
    pub closed spec fn sender_ids(&self) -> Set<Seq<char>> {
        id_set(self.senders@)
    }

    /// The membership rows.
    pub closed spec fn member_rows(&self) -> Seq<(Seq<char>, Seq<char>, Seq<char>)> {
        row_views(self.members@)
    }

    /// The members of `(path, topic)`.
    pub open spec fn members_of(&self, path: Seq<char>, topic: Seq<char>) -> Set<Seq<char>> {
        rows_members(self.member_rows(), path, topic)
    }

    /// An empty registry.
    pub fn new() -> (r: WebSocketState)
        ensures
            r.paths() == Map::<u64, Seq<char>>::empty(),
            r.sender_ids() == Set::<Seq<char>>::empty(),
            r.member_rows() == Seq::<(Seq<char>, Seq<char>, Seq<char>)>::empty(),
    {
        let r = WebSocketState { paths: Vec::new(), senders: Vec::new(), members: Vec::new() };
        proof {
            assert(r.member_rows() =~= Seq::<(Seq<char>, Seq<char>, Seq<char>)>::empty());
        }
        r
    }

    /// Registers the path of the endpoint known by `tag`.
    pub fn insert_path(&mut self, tag: u64, path: &str)
        ensures
            final(self).paths() == old(self).paths().insert(tag, path@),
            final(self).sender_ids() == old(self).sender_ids(),
            final(self).member_rows() == old(self).member_rows(),
    {
        self.paths.push((tag, path.to_owned()));
        proof {
            assert(self.paths@.drop_last() =~= old(self).paths@);
        }
    }

    /// The path registered under `tag`.
    pub fn get_path(&self, tag: u64) -> (r: Option<String>)
        ensures
            r is Some <==> self.paths().contains_key(tag),
            r is Some ==> r->Some_0@ == self.paths()[tag],
    {
        let n = self.paths.len();
        let mut i: usize = n;
        proof {
            assert(self.paths@.take(n as int) =~= self.paths@);
        }
        while i > 0
            invariant
                i <= self.paths@.len(),
                path_map(self.paths@).contains_key(tag) == path_map(
                    self.paths@.take(i as int),
                ).contains_key(tag),
                path_map(self.paths@).contains_key(tag) ==> path_map(self.paths@)[tag] == path_map(
                    self.paths@.take(i as int),
                )[tag],
            decreases i,
        {
            i = i - 1;
            proof {
                assert(self.paths@.take(i as int + 1).drop_last() =~= self.paths@.take(i as int));
                assert(self.paths@.take(i as int + 1).last() == self.paths@[i as int]);
            }
            if self.paths[i].0 == tag {
                return Some(self.paths[i].1.clone());
            }
        }
        proof {
            assert(self.paths@.take(0) =~= Seq::<(u64, String)>::empty());
        }
        None
    }

    /// Registers the outbound sender of a connection.
    pub fn insert_sender(&mut self, key: &str, val: Sender<Message>)
        ensures
            final(self).sender_ids() == old(self).sender_ids().insert(key@),
            final(self).paths() == old(self).paths(),
            final(self).member_rows() == old(self).member_rows(),
    {
        self.senders.push((key.to_owned(), val));
        proof {
            assert(self.senders@.drop_last() =~= old(self).senders@);
        }
    }

    /// The outbound sender of a connection, if one is registered.
    pub fn get_sender(&self, key: &str) -> (r: Option<&Sender<Message>>)
        ensures
            r is Some <==> self.sender_ids().contains(key@),
    {
        let n = self.senders.len();
        let mut i: usize = n;
        proof {
            assert(self.senders@.take(n as int) =~= self.senders@);
        }
        while i > 0
            invariant
                i <= self.senders@.len(),
                id_set(self.senders@).contains(key@) == id_set(
                    self.senders@.take(i as int),
                ).contains(key@),
            decreases i,
        {
            i = i - 1;
            proof {
                assert(self.senders@.take(i as int + 1).drop_last() =~= self.senders@.take(
                    i as int,
                ));
                assert(self.senders@.take(i as int + 1).last() == self.senders@[i as int]);
            }
            if crate::event::str_eq(self.senders[i].0.as_str(), key) {
                return Some(&self.senders[i].1);
            }
        }
        proof {
            assert(self.senders@.take(0) =~= Seq::<(String, Sender<Message>)>::empty());
        }
        None
    }

    /// Removes and returns a connection's outbound sender.
    pub fn remove_sender(&mut self, key: &str) -> (r: Option<Sender<Message>>)
        ensures
            final(self).sender_ids() == old(self).sender_ids().remove(key@),
            r is Some <==> old(self).sender_ids().contains(key@),
            final(self).paths() == old(self).paths(),
            final(self).member_rows() == old(self).member_rows(),
    {
        let mut kept: Vec<(String, Sender<Message>)> = Vec::new();
        let mut removed: Option<Sender<Message>> = None;
        while self.senders.len() > 0
            invariant
                removed is Some ==> id_set(old(self).senders@) =~= id_set(self.senders@).union(
                    id_set(kept@),
                ).insert(key@),
                removed is None ==> id_set(old(self).senders@) =~= id_set(self.senders@).union(
                    id_set(kept@),
                ),
                !id_set(kept@).contains(key@),
                self.paths@ == old(self).paths@,
                self.members@ == old(self).members@,
            decreases self.senders@.len(),
        {
            let ghost pre = self.senders@;
            let ghost pre_kept = kept@;
            proof {
                assert(id_set(pre) == id_set(pre.drop_last()).insert(pre.last().0@));
            }
            let entry = self.senders.pop().unwrap();
            proof {
                assert(self.senders@ =~= pre.drop_last());
                assert(entry == pre.last());
            }
            if crate::event::str_eq(entry.0.as_str(), key) {
                removed = Some(entry.1);
                proof {
                    assert(id_set(old(self).senders@) =~= id_set(self.senders@).union(
                        id_set(kept@),
                    ).insert(key@));
                }
            } else {
                kept.push(entry);
                proof {
                    assert(kept@.drop_last() =~= pre_kept);
                    assert(id_set(kept@) == id_set(pre_kept).insert(entry.0@));
                    if removed is Some {
                        assert(id_set(old(self).senders@) =~= id_set(self.senders@).union(
                            id_set(kept@),
                        ).insert(key@));
                    } else {
                        assert(id_set(old(self).senders@) =~= id_set(self.senders@).union(
                            id_set(kept@),
                        ));
                    }
                }
            }
        }
        proof {
            assert(id_set(self.senders@) =~= Set::<Seq<char>>::empty());
        }
        self.senders = kept;
        proof {
            if removed is Some {
                assert(final(self).sender_ids() =~= old(self).sender_ids().remove(key@));
            } else {
                assert(!old(self).sender_ids().contains(key@));
                assert(final(self).sender_ids() =~= old(self).sender_ids().remove(key@));
            }
        }
        removed
    }

    /// Records that `entry` has joined `key`'s topic. Joining twice
    /// adds a second row, but membership is a set and the fan-out
    /// targets each member once.
    pub fn insert_user(&mut self, key: (String, Topic), entry: UserId)
        ensures
            final(self).members_of(key.0@, key.1@) == old(self).members_of(key.0@, key.1@).insert(
                entry@,
            ),
            forall|p: Seq<char>, t: Seq<char>|
                !(p == key.0@ && t == key.1@) ==> final(self).members_of(p, t) == old(
                    self,
                ).members_of(p, t),
            final(self).sender_ids() == old(self).sender_ids(),
            final(self).paths() == old(self).paths(),
    {
        self.members.push((key.0, key.1, entry));
        proof {
            assert(row_views(self.members@).drop_last() =~= row_views(old(self).members@));
            assert(row_views(self.members@).last() == (
                self.members@.last().0@,
                self.members@.last().1@,
                self.members@.last().2@,
            ));
        }
    }

    /// The members of `key`'s topic, if any row names it.
    pub fn get_users(&self, key: &(String, Topic)) -> (r: Option<Vec<UserId>>)
        ensures
            r is None ==> self.members_of(key.0@, key.1@) == Set::<Seq<char>>::empty(),
            r is Some ==> ids_in(r->Some_0@) == self.members_of(key.0@, key.1@),
    {
        let ghost rows = self.member_rows();
        let mut out: Vec<UserId> = Vec::new();
        let n = self.members.len();
        let mut i: usize = 0;
        proof {
            assert(rows.take(0) =~= Seq::<(Seq<char>, Seq<char>, Seq<char>)>::empty());
            assert(ids_in(out@) =~= Set::<Seq<char>>::empty());
        }
        while i < n
            invariant
                n == self.members@.len(),
                i <= n,
                rows == self.member_rows(),
                ids_in(out@) == rows_members(rows.take(i as int), key.0@, key.1@),
            decreases n - i,
        {
            let ghost pre_out = out@;
            proof {
                assert(rows.take(i as int + 1).drop_last() =~= rows.take(i as int));
                assert(rows.take(i as int + 1).last() == rows[i as int]);
                assert(rows[i as int] == (
                    self.members@[i as int].0@,
                    self.members@[i as int].1@,
                    self.members@[i as int].2@,
                ));
            }
            let row = &self.members[i];
            if crate::event::str_eq(row.0.as_str(), key.0.as_str()) && crate::event::str_eq(
                row.1.as_str(),
                key.1.as_str(),
            ) {
                out.push(row.2.clone());
                proof {
                    assert(out@.drop_last() =~= pre_out);
                    assert(ids_in(out@) == ids_in(pre_out).insert(rows[i as int].2));
                }
            }
            i = i + 1;
        }
        proof {
            assert(rows.take(n as int) =~= rows);
        }
        if out.len() == 0 {
            proof {
                assert(ids_in(out@) =~= Set::<Seq<char>>::empty());
            }
            None
        } else {
            Some(out)
        }
    }

    /// Removes `entry` from `key`'s topic. Returns whether it was a
    /// member.
    pub fn remove_user(&mut self, key: &(String, Topic), entry: &UserId) -> (r: bool)
        ensures
            final(self).members_of(key.0@, key.1@) == old(self).members_of(key.0@, key.1@).remove(
                entry@,
            ),
            forall|p: Seq<char>, t: Seq<char>|
                !(p == key.0@ && t == key.1@) ==> final(self).members_of(p, t) == old(
                    self,
                ).members_of(p, t),
            r == old(self).members_of(key.0@, key.1@).contains(entry@),
            final(self).sender_ids() == old(self).sender_ids(),
            final(self).paths() == old(self).paths(),
    {
        let ghost target: (Seq<char>, Seq<char>, Seq<char>) = (key.0@, key.1@, entry@);
        let mut kept: Vec<MemberRow> = Vec::new();
        let mut found = false;
        let n = self.members.len();
        let mut i: usize = 0;
        proof {
            assert(row_views(self.members@).take(0) =~= Seq::<
                (Seq<char>, Seq<char>, Seq<char>),
            >::empty());
            assert(row_views(kept@) =~= Seq::<(Seq<char>, Seq<char>, Seq<char>)>::empty());
        }
        while i < n
            invariant
                target == (key.0@, key.1@, entry@),
                n == self.members@.len(),
                i <= n,
                self.members@ == old(self).members@,
                row_views(kept@) == drop_rows(row_views(self.members@).take(i as int), target),
                found == exists|j: int|
                    0 <= j < i && row_views(self.members@)[j] == target,
                self.paths@ == old(self).paths@,
                self.senders@ == old(self).senders@,
            decreases n - i,
        {
            let ghost rows = row_views(self.members@);
            let ghost pre_kept = kept@;
            proof {
                assert(rows.take(i as int + 1).drop_last() =~= rows.take(i as int));
                assert(rows.take(i as int + 1).last() == rows[i as int]);
                assert(rows[i as int] == (
                    self.members@[i as int].0@,
                    self.members@[i as int].1@,
                    self.members@[i as int].2@,
                ));
            }
            let row = &self.members[i];
            let matches_row = crate::event::str_eq(row.0.as_str(), key.0.as_str())
                && crate::event::str_eq(row.1.as_str(), key.1.as_str()) && crate::event::str_eq(
                row.2.as_str(),
                entry.as_str(),
            );
            if matches_row {
                found = true;
                proof {
                    assert(rows[i as int] =~= target);
                }
            } else {
                kept.push((row.0.clone(), row.1.clone(), row.2.clone()));
                proof {
                    assert(row_views(kept@).drop_last() =~= row_views(pre_kept));
                    assert(row_views(kept@).last() == rows[i as int]);
                    assert(row_views(kept@) =~= drop_rows(rows.take(i as int + 1), target));
                }
            }
            proof {
                if found && !matches_row {
                    assert(exists|j: int| 0 <= j < i + 1 && row_views(self.members@)[j] == target);
                }
            }
            i = i + 1;
        }
        proof {
            assert(row_views(self.members@).take(n as int) =~= row_views(self.members@));
            lemma_drop_rows_members(row_views(self.members@), target);
            lemma_rows_members_contains(row_views(self.members@), key.0@, key.1@, entry@);
        }
        self.members = kept;
        found
    }

    /// Forgets a connection entirely: its outbound sender goes, and it
    /// leaves every topic it had joined.
    pub fn clearn_user(&mut self, entry: &UserId)
        ensures
            final(self).sender_ids() == old(self).sender_ids().remove(entry@),
            forall|p: Seq<char>, t: Seq<char>|
                #![trigger final(self).members_of(p, t)]
                final(self).members_of(p, t) == old(self).members_of(p, t).remove(entry@),
            final(self).paths() == old(self).paths(),
    {
        self.remove_sender(entry.as_str());
        let mut kept: Vec<MemberRow> = Vec::new();
        let n = self.members.len();
        let mut i: usize = 0;
        let ghost mid = *self;
        proof {
            assert(row_views(self.members@).take(0) =~= Seq::<
                (Seq<char>, Seq<char>, Seq<char>),
            >::empty());
            assert(row_views(kept@) =~= Seq::<(Seq<char>, Seq<char>, Seq<char>)>::empty());
        }
        while i < n
            invariant
                n == self.members@.len(),
                i <= n,
                *self == mid,
                row_views(kept@) == drop_user_rows(row_views(self.members@).take(i as int), entry@),
            decreases n - i,
        {
            let ghost rows = row_views(self.members@);
            let ghost pre_kept = kept@;
            proof {
                assert(rows.take(i as int + 1).drop_last() =~= rows.take(i as int));
                assert(rows.take(i as int + 1).last() == rows[i as int]);
                assert(rows[i as int] == (
                    self.members@[i as int].0@,
                    self.members@[i as int].1@,
                    self.members@[i as int].2@,
                ));
            }
            let row = &self.members[i];
            if crate::event::str_eq(row.2.as_str(), entry.as_str()) {
                proof {
                    assert(row_views(kept@) =~= drop_user_rows(rows.take(i as int + 1), entry@));
                }
            } else {
                kept.push((row.0.clone(), row.1.clone(), row.2.clone()));
                proof {
                    assert(row_views(kept@).drop_last() =~= row_views(pre_kept));
                    assert(row_views(kept@).last() == rows[i as int]);
                    assert(row_views(kept@) =~= drop_user_rows(rows.take(i as int + 1), entry@));
                }
            }
            i = i + 1;
        }
        proof {
            assert(row_views(self.members@).take(n as int) =~= row_views(self.members@));
            lemma_drop_user_rows_members(row_views(self.members@), entry@);
        }
        self.members = kept;
    }
}

/// The ids a delivery plan targets.
pub open spec fn plan_targets(plan: Seq<(UserId, Message)>) -> Set<Seq<char>>
    decreases plan.len(),
{
    if plan.len() == 0 {
        Set::empty()
    } else {
        plan_targets(plan.drop_last()).insert(plan.last().0@)
    }
}

/// The excluded ids of a fan-out: one, or none.
pub open spec fn excluded_set(exclude: Option<&UserId>) -> Set<Seq<char>> {
    match exclude {
        Some(e) => Set::empty().insert(e@),
        None => Set::empty(),
    }
}

/// The model of an optional reference frame.
pub open spec fn prev_view(prev: Option<&Message>) -> Option<crate::message::MessageV> {
    match prev {
        Some(m) => Some(m@),
        None => None,
    }
}

/// The frame a fan-out delivers: the topic and the caller's event, the
/// coerced response as payload, and, when a reference frame is given,
/// its refs and topic.
pub open spec fn broadcast_frame(
    topic: Seq<char>,
    event: Seq<char>,
    resp: crate::handler::response::ResponseV,
    prev: Option<crate::message::MessageV>,
) -> crate::message::MessageV {
    match prev {
        Some(p) => crate::message::MessageV {
            join_ref: p.join_ref,
            message_ref: p.message_ref,
            topic: p.topic,
            event: crate::event::event_of_name(event),
            payload: crate::handler::response::response_json(resp),
        },
        None => crate::message::MessageV {
            join_ref: None,
            message_ref: None,
            topic: topic,
            event: crate::event::event_of_name(event),
            payload: crate::handler::response::response_json(resp),
        },
    }
}

/// Whether the plan already targets an id.
fn plan_contains(plan: &Vec<(UserId, Message)>, id: &UserId) -> (r: bool)
    ensures
        r == plan_targets(plan@).contains(id@),
{
    let n = plan.len();
    let mut i: usize = 0;
    proof {
        assert(plan@.take(0) =~= Seq::<(UserId, Message)>::empty());
    }
    while i < n
        invariant
            n == plan@.len(),
            i <= n,
            !plan_targets(plan@.take(i as int)).contains(id@),
        decreases n - i,
    {
        proof {
            assert(plan@.take(i as int + 1).drop_last() =~= plan@.take(i as int));
            assert(plan@.take(i as int + 1).last() == plan@[i as int]);
        }
        if crate::event::str_eq(plan[i].0.as_str(), id.as_str()) {
            proof {
                assert(plan_targets(plan@.take(i as int + 1)).contains(id@));
                lemma_plan_targets_prefix(plan@, i as int + 1, id@);
            }
            return true;
        }
        i = i + 1;
    }
    proof {
        assert(plan@.take(n as int) =~= plan@);
    }
    false
}

/// An id targeted within a prefix is targeted by the whole plan.
proof fn lemma_plan_targets_prefix(plan: Seq<(UserId, Message)>, k: int, id: Seq<char>)
    requires
        0 <= k <= plan.len(),
        plan_targets(plan.take(k)).contains(id),
    ensures
        plan_targets(plan).contains(id),
    decreases plan.len() - k,
{
    if k < plan.len() {
        assert(plan.take(k + 1).drop_last() =~= plan.take(k));
        assert(plan.take(k + 1).last() == plan[k]);
        assert(plan_targets(plan.take(k + 1)).contains(id));
        lemma_plan_targets_prefix(plan, k + 1, id);
    } else {
        assert(plan.take(k) =~= plan);
    }
}

impl WebSocketState {
    /// Delivers one frame to every member of `(path, topic)` that has a
    /// sender, except the excluded id; a recipient whose queue is full
    /// has the frame dropped rather than block the fan-out. Returns the
    /// delivery plan: who was targeted, with the frame each was handed.
    /// A missing path or topic makes the fan-out a no-op.
    pub fn do_broadcast(
        &self,
        exclude: Option<&UserId>,
        path: Option<&String>,
        topic: Option<&Topic>,
        event: &str,
        data: Result<crate::json::JsonValue, String>,
        prev: Option<&Message>,
    ) -> (plan: Vec<(UserId, Message)>)
        ensures
            path is None || topic is None ==> plan@.len() == 0,
            path is Some && topic is Some ==> plan_targets(plan@) == self.members_of(
                path->Some_0@,
                topic->Some_0@,
            ).intersect(self.sender_ids()).difference(excluded_set(exclude)),
            forall|k: int|
                0 <= k < plan@.len() ==> (#[trigger] plan@[k]).1@ == broadcast_frame(
                    match topic {
                        Some(t) => t@,
                        None => Seq::empty(),
                    },
                    event@,
                    data.resp_spec(),
                    prev_view(prev),
                ),
            exclude is Some ==> forall|k: int|
                0 <= k < plan@.len() ==> (#[trigger] plan@[k]).0@ != exclude->Some_0@,
            forall|k: int, l: int|
                0 <= k < l < plan@.len() ==> (#[trigger] plan@[k]).0@ != (#[trigger] plan@[l]).0@,
    {
        let response = data.into_response();
        let payload = response.to_payload();
        let base_topic = match topic {
            Some(t) => t.clone(),
            None => Topic(String::new()),
        };
        let mut frame = Message {
            join_ref: None,
            message_ref: None,
            topic: base_topic,
            event: Event::from_wire(event),
            payload,
        };
        match prev {
            Some(m) => {
                frame.merge(m);
            },
            None => {},
        }
        let mut plan: Vec<(UserId, Message)> = Vec::new();
        let (p, t) = match (path, topic) {
            (Some(p), Some(t)) => (p, t),
            _ => {
                return plan;
            },
        };
        let ghost fv = broadcast_frame(t@, event@, data.resp_spec(), prev_view(prev));
        let ghost rows = self.member_rows();
        let ghost excl = excluded_set(exclude);
        proof {
            assert(frame@ == fv);
            assert(rows.take(0) =~= Seq::<(Seq<char>, Seq<char>, Seq<char>)>::empty());
            assert(plan_targets(plan@) =~= rows_members(rows.take(0), p@, t@).intersect(
                self.sender_ids(),
            ).difference(excl));
        }
        let n = self.members.len();
        let mut i: usize = 0;
        while i < n
            invariant
                n == self.members@.len(),
                rows == self.member_rows(),
                excl == excluded_set(exclude),
                frame@ == fv,
                i <= n,
                plan_targets(plan@) == rows_members(rows.take(i as int), p@, t@).intersect(
                    self.sender_ids(),
                ).difference(excl),
                forall|k: int| 0 <= k < plan@.len() ==> (#[trigger] plan@[k]).1@ == fv,
                forall|k: int|
                    0 <= k < plan@.len() ==> !excl.contains((#[trigger] plan@[k]).0@),
                forall|k: int|
                    0 <= k < plan@.len() ==> plan_targets(plan@).contains(
                        (#[trigger] plan@[k]).0@,
                    ),
                forall|k: int, l: int|
                    0 <= k < l < plan@.len() ==> (#[trigger] plan@[k]).0@ != (
                    #[trigger] plan@[l]).0@,
            decreases n - i,
        {
            let ghost pre_plan = plan@;
            proof {
                assert(rows.take(i as int + 1).drop_last() =~= rows.take(i as int));
                assert(rows.take(i as int + 1).last() == rows[i as int]);
                assert(rows[i as int] == (
                    self.members@[i as int].0@,
                    self.members@[i as int].1@,
                    self.members@[i as int].2@,
                ));
            }
            let row = &self.members[i];
            let is_key = crate::event::str_eq(row.0.as_str(), p.as_str()) && crate::event::str_eq(
                row.1.as_str(),
                t.as_str(),
            );
            if is_key {
                let id = &row.2;
                let is_excluded = match exclude {
                    Some(e) => crate::event::str_eq(id.as_str(), e.as_str()),
                    None => false,
                };
                if !is_excluded && !plan_contains(&plan, id) {
                    match self.get_sender(id.as_str()) {
                        Some(tx) => {
                            crate::external::try_send_frame(tx, frame.clone());
                            plan.push((id.clone(), frame.clone()));
                            proof {
                                assert(plan@.drop_last() =~= pre_plan);
                                assert(plan_targets(plan@) == plan_targets(pre_plan).insert(id@));
                                assert(plan_targets(plan@) =~= rows_members(
                                    rows.take(i as int + 1),
                                    p@,
                                    t@,
                                ).intersect(self.sender_ids()).difference(excl));
                                assert forall|k: int| 0 <= k < plan@.len() implies plan_targets(
                                    plan@,
                                ).contains((#[trigger] plan@[k]).0@) by {
                                    if k < pre_plan.len() {
                                        assert(plan@[k] == pre_plan[k]);
                                        assert(plan_targets(pre_plan).contains(pre_plan[k].0@));
                                    }
                                }
                            }
                        },
                        None => {
                            proof {
                                assert(!self.sender_ids().contains(id@));
                                assert(plan_targets(plan@) =~= rows_members(
                                    rows.take(i as int + 1),
                                    p@,
                                    t@,
                                ).intersect(self.sender_ids()).difference(excl));
                            }
                        },
                    }
                } else {
                    proof {
                        if is_excluded {
                            assert(excl.contains(id@));
                        } else {
                            assert(plan_targets(plan@).contains(id@));
                        }
                        assert(plan_targets(plan@) =~= rows_members(
                            rows.take(i as int + 1),
                            p@,
                            t@,
                        ).intersect(self.sender_ids()).difference(excl));
                    }
                }
            } else {
                proof {
                    assert(rows_members(rows.take(i as int + 1), p@, t@) == rows_members(
                        rows.take(i as int),
                        p@,
                        t@,
                    ));
                }
            }
            i = i + 1;
        }
        proof {
            assert(rows.take(n as int) =~= rows);
        }
        plan
    }
}

/// The rows with one exact row taken out.
pub open spec fn drop_rows(
    rows: Seq<(Seq<char>, Seq<char>, Seq<char>)>,
    target: (Seq<char>, Seq<char>, Seq<char>),
) -> Seq<(Seq<char>, Seq<char>, Seq<char>)>
    decreases rows.len(),
{
    if rows.len() == 0 {
        rows
    } else if rows.last() == target {
        drop_rows(rows.drop_last(), target)
    } else {
        drop_rows(rows.drop_last(), target).push(rows.last())
    }
}

/// Taking the row `(p0, t0, id)` out removes `id` from the members of
/// `(p0, t0)` and leaves every other membership set alone.
pub proof fn lemma_drop_rows_members(
    rows: Seq<(Seq<char>, Seq<char>, Seq<char>)>,
    target: (Seq<char>, Seq<char>, Seq<char>),
)
    ensures
        rows_members(drop_rows(rows, target), target.0, target.1) =~= rows_members(
            rows,
            target.0,
            target.1,
        ).remove(target.2),
        forall|p: Seq<char>, t: Seq<char>|
            !(p == target.0 && t == target.1) ==> rows_members(drop_rows(rows, target), p, t)
                =~= rows_members(rows, p, t),
    decreases rows.len(),
{
    if rows.len() > 0 {
        lemma_drop_rows_members(rows.drop_last(), target);
        let dropped = drop_rows(rows, target);
        let sub = drop_rows(rows.drop_last(), target);
        if rows.last() != target {
            assert(dropped.drop_last() =~= sub);
            assert(dropped.last() == rows.last());
        }
        assert forall|p: Seq<char>, t: Seq<char>|
            !(p == target.0 && t == target.1) implies rows_members(dropped, p, t) =~= rows_members(
            rows,
            p,
            t,
        ) by {
            assert(rows_members(sub, p, t) =~= rows_members(rows.drop_last(), p, t));
            if rows.last() == target {
                assert(rows_members(rows, p, t) == rows_members(rows.drop_last(), p, t));
                assert(rows_members(dropped, p, t) == rows_members(sub, p, t));
            } else {
                if rows.last().0 == p && rows.last().1 == t {
                    assert(rows_members(dropped, p, t) == rows_members(sub, p, t).insert(
                        rows.last().2,
                    ));
                    assert(rows_members(rows, p, t) == rows_members(rows.drop_last(), p, t).insert(
                        rows.last().2,
                    ));
                } else {
                    assert(rows_members(dropped, p, t) == rows_members(sub, p, t));
                    assert(rows_members(rows, p, t) == rows_members(rows.drop_last(), p, t));
                }
            }
        }
    }
}

/// The rows with every row of one member taken out.
pub open spec fn drop_user_rows(
    rows: Seq<(Seq<char>, Seq<char>, Seq<char>)>,
    id: Seq<char>,
) -> Seq<(Seq<char>, Seq<char>, Seq<char>)>
    decreases rows.len(),
{
    if rows.len() == 0 {
        rows
    } else if rows.last().2 == id {
        drop_user_rows(rows.drop_last(), id)
    } else {
        drop_user_rows(rows.drop_last(), id).push(rows.last())
    }
}

/// Taking every row of `id` out removes `id` from every membership set
/// and nothing else.
pub proof fn lemma_drop_user_rows_members(rows: Seq<(Seq<char>, Seq<char>, Seq<char>)>, id: Seq<char>)
    ensures
        forall|p: Seq<char>, t: Seq<char>|
            #![trigger rows_members(drop_user_rows(rows, id), p, t)]
            rows_members(drop_user_rows(rows, id), p, t) =~= rows_members(rows, p, t).remove(id),
    decreases rows.len(),
{
    if rows.len() > 0 {
        lemma_drop_user_rows_members(rows.drop_last(), id);
        let dropped = drop_user_rows(rows, id);
        let sub = drop_user_rows(rows.drop_last(), id);
        if rows.last().2 != id {
            assert(dropped.drop_last() =~= sub);
            assert(dropped.last() == rows.last());
        }
        assert forall|p: Seq<char>, t: Seq<char>|
            rows_members(#[trigger] drop_user_rows(rows, id), p, t) =~= rows_members(
            rows,
            p,
            t,
        ).remove(id) by {
            assert(rows_members(sub, p, t) =~= rows_members(rows.drop_last(), p, t).remove(id));
            if rows.last().2 == id {
                assert(dropped == sub);
                if rows.last().0 == p && rows.last().1 == t {
                    assert(rows_members(rows, p, t) == rows_members(rows.drop_last(), p, t).insert(
                        id,
                    ));
                    assert(rows_members(rows.drop_last(), p, t).insert(id).remove(id)
                        =~= rows_members(rows.drop_last(), p, t).remove(id));
                } else {
                    assert(rows_members(rows, p, t) == rows_members(rows.drop_last(), p, t));
                }
            } else {
                if rows.last().0 == p && rows.last().1 == t {
                    assert(rows_members(dropped, p, t) == rows_members(sub, p, t).insert(
                        rows.last().2,
                    ));
                    assert(rows_members(rows, p, t) == rows_members(rows.drop_last(), p, t).insert(
                        rows.last().2,
                    ));
                    assert(rows_members(rows.drop_last(), p, t).insert(rows.last().2).remove(id)
                        =~= rows_members(rows.drop_last(), p, t).remove(id).insert(rows.last().2));
                } else {
                    assert(rows_members(dropped, p, t) == rows_members(sub, p, t));
                    assert(rows_members(rows, p, t) == rows_members(rows.drop_last(), p, t));
                }
            }
        }
    }
}

} // verus!
