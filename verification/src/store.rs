//! The persistence layer: an in-memory store for meetings and messages.
//!
//! This is the service's default persistence (the configuration chosen when
//! no external store location is given): one growable table per entity, an
//! id-uniqueness guarantee per table, and a stamp clock that makes every
//! write carry a timestamp strictly greater than every earlier one. The
//! store is an injected handle: it is constructed once at startup and handed
//! to every request handler.

use vstd::prelude::*;

use crate::model::{MeetingMessage, MeetingStatus, MeetingView, MessageView, RefinementMeeting};

verus! {

/// Failure of a storage operation, the in-memory analogue of a driver
/// error: the primary key drawn for a row is already taken, or the stamp
/// clock can no longer advance. Entity absence is never an error; it is an
/// explicit empty result.
#[derive(Debug, Clone, Copy, PartialEq, Eq, Structural)]
pub enum StorageError {
    DuplicateId,
    ClockExhausted,
}

impl StorageError {
    /// The human-readable message this error carries.
    pub open spec fn describe_spec(self) -> Seq<char> {
        match self {
            StorageError::DuplicateId => "duplicate row id"@,
            StorageError::ClockExhausted => "timestamp clock exhausted"@,
        }
    }

    /// Renders the error as its human-readable message.
    pub fn describe(&self) -> (r: String)
        ensures
            r@ == self.describe_spec(),
    {
        match self {
            StorageError::DuplicateId => "duplicate row id".to_owned(),
            StorageError::ClockExhausted => "timestamp clock exhausted".to_owned(),
        }
    }
}

/// The images of a sequence of stored meetings.
pub open spec fn meeting_views(s: Seq<RefinementMeeting>) -> Seq<MeetingView> {
    s.map_values(|m: RefinementMeeting| m@)
}

/// The images of a sequence of stored messages.
pub open spec fn message_views(s: Seq<MeetingMessage>) -> Seq<MessageView> {
    s.map_values(|m: MeetingMessage| m@)
}

/// Mathematical image of the store: the two tables in insertion order, and
/// the newest stamp the clock has handed out.
pub ghost struct StoreView {
    pub meetings: Seq<MeetingView>,
    pub messages: Seq<MessageView>,
    pub clock: int,
}

/// The meeting a lookup by id finds. Ids are unique in a well-formed store,
/// so at most one element matches; the search order is immaterial.
pub open spec fn lookup_meeting(ms: Seq<MeetingView>, id: u128) -> Option<MeetingView>
    decreases ms.len(),
{
    if ms.len() == 0 {
        None
    } else if ms.last().id == id {
        Some(ms.last())
    } else {
        lookup_meeting(ms.drop_last(), id)
    }
}

/// The message a lookup by id finds.
pub open spec fn lookup_message(msgs: Seq<MessageView>, id: u128) -> Option<MessageView>
    decreases msgs.len(),
{
    if msgs.len() == 0 {
        None
    } else if msgs.last().id == id {
        Some(msgs.last())
    } else {
        lookup_message(msgs.drop_last(), id)
    }
}

/// The meetings of one project, newest creation first.
pub open spec fn project_listing(ms: Seq<MeetingView>, project_id: u128) -> Seq<MeetingView>
    decreases ms.len(),
{
    if ms.len() == 0 {
        Seq::empty()
    } else if ms.last().project_id == project_id {
        seq![ms.last()] + project_listing(ms.drop_last(), project_id)
    } else {
        project_listing(ms.drop_last(), project_id)
    }
}

/// The transcript of one meeting, oldest message first.
pub open spec fn meeting_transcript(msgs: Seq<MessageView>, meeting_id: u128) -> Seq<MessageView>
    decreases msgs.len(),
{
    if msgs.len() == 0 {
        Seq::empty()
    } else if msgs.last().meeting_id == meeting_id {
        meeting_transcript(msgs.drop_last(), meeting_id) + seq![msgs.last()]
    } else {
        meeting_transcript(msgs.drop_last(), meeting_id)
    }
}

/// The meeting table after a status write: the meeting with the given id
/// takes the new status and stamp, everything else is unchanged.
pub open spec fn with_status(
    ms: Seq<MeetingView>,
    id: u128,
    status: MeetingStatus,
    ts: int,
) -> Seq<MeetingView> {
    ms.map_values(
        |m: MeetingView|
            if m.id == id {
                MeetingView {
                    id: m.id,
                    project_id: m.project_id,
                    title: m.title,
                    status: status,
                    created_at: m.created_at,
                    updated_at: ts,
                }
            } else {
                m
            },
    )
}

/// The stamp assigned for a write made at wall-clock `now`: `now` itself
/// when it is ahead of everything assigned before, else one microsecond past
/// the newest assigned stamp — so stamps strictly increase across writes.
pub open spec fn next_stamp(clock: int, now: int) -> int {
    if now > clock {
        now
    } else {
        clock + 1
    }
}

/// Well-formedness of a store image: ids are unique per table, stamps are
/// positive, never ahead of the clock, and strictly increasing in insertion
/// order, and no meeting was updated before it was created.
pub open spec fn store_inv(v: StoreView) -> bool {
    &&& 0 <= v.clock <= i64::MAX
    &&& forall|i: int, j: int|
        #![trigger v.meetings[i], v.meetings[j]]
        0 <= i < j < v.meetings.len() ==> v.meetings[i].id != v.meetings[j].id
            && v.meetings[i].created_at < v.meetings[j].created_at
    &&& forall|i: int|
        0 <= i < v.meetings.len() ==> 0 < (#[trigger] v.meetings[i]).created_at
            <= v.meetings[i].updated_at <= v.clock
    &&& forall|i: int, j: int|
        #![trigger v.messages[i], v.messages[j]]
        0 <= i < j < v.messages.len() ==> v.messages[i].id != v.messages[j].id
            && v.messages[i].created_at < v.messages[j].created_at
    &&& forall|i: int|
        0 <= i < v.messages.len() ==> 0 < (#[trigger] v.messages[i]).created_at <= v.clock
}

/// The in-memory store. Fields are private: every way of obtaining or
/// changing one goes through an operation that preserves `wf`.
pub struct MeetingStore {
    meetings: Vec<RefinementMeeting>,
    messages: Vec<MeetingMessage>,
    clock: i64,
}

impl View for MeetingStore {
    type V = StoreView;

    closed spec fn view(&self) -> StoreView {
        StoreView {
            meetings: meeting_views(self.meetings@),
            messages: message_views(self.messages@),
            clock: self.clock as int,
        }
    }
}

impl MeetingStore {
    /// A store is well formed when its image satisfies the invariant;
    /// `new` establishes this and every operation preserves it.
    pub open spec fn wf(&self) -> bool {
        store_inv(self@)
    }

    /// A fresh, empty store.
    pub fn new() -> (s: Self)
        ensures
            s.wf(),
            s@.meetings == Seq::<MeetingView>::empty(),
            s@.messages == Seq::<MessageView>::empty(),
            s@.clock == 0,
    {
        let s = MeetingStore { meetings: Vec::new(), messages: Vec::new(), clock: 0 };
        proof {
            assert(s@.meetings =~= Seq::<MeetingView>::empty());
            assert(s@.messages =~= Seq::<MessageView>::empty());
        }
        s
    }
}

/// The stamp for a write made now, or `None` when the clock has reached the
/// end of its range and can no longer advance.
fn stamp_after(clock: i64, now: i64) -> (r: Option<i64>)
    ensures
        match r {
            Some(t) => clock < i64::MAX && t as int == next_stamp(clock as int, now as int),
            None => clock == i64::MAX,
        },
{
    if clock == i64::MAX {
        None
    } else if now > clock {
        Some(now)
    } else {
        Some(clock + 1)
    }
}

/// A lookup misses exactly when no stored meeting carries the id.
pub proof fn lemma_meeting_lookup_none_iff(ms: Seq<MeetingView>, id: u128)
    ensures
        (lookup_meeting(ms, id) is None) <==> (forall|i: int|
            0 <= i < ms.len() ==> (#[trigger] ms[i]).id != id),
    decreases ms.len(),
{
    if ms.len() > 0 {
        lemma_meeting_lookup_none_iff(ms.drop_last(), id);
        assert(forall|i: int| 0 <= i < ms.len() - 1 ==> ms.drop_last()[i] == ms[i]);
    }
}

/// A lookup misses exactly when no stored message carries the id.
pub proof fn lemma_message_lookup_none_iff(msgs: Seq<MessageView>, id: u128)
    ensures
        (lookup_message(msgs, id) is None) <==> (forall|i: int|
            0 <= i < msgs.len() ==> (#[trigger] msgs[i]).id != id),
    decreases msgs.len(),
{
    if msgs.len() > 0 {
        lemma_message_lookup_none_iff(msgs.drop_last(), id);
        assert(forall|i: int| 0 <= i < msgs.len() - 1 ==> msgs.drop_last()[i] == msgs[i]);
    }
}

/// Pushing a meeting with a fresh id and a stamp ahead of the clock
/// preserves the store invariant.
proof fn lemma_inv_push_meeting(v: StoreView, m: MeetingView, clock: int)
    requires
        store_inv(v),
        lookup_meeting(v.meetings, m.id) is None,
        v.clock < m.created_at,
        m.created_at == clock,
        m.updated_at == clock,
        clock <= i64::MAX,
    ensures
        store_inv(StoreView { meetings: v.meetings.push(m), messages: v.messages, clock: clock }),
{
    lemma_meeting_lookup_none_iff(v.meetings, m.id);
    let ms2 = v.meetings.push(m);
    assert forall|i: int, j: int|
        0 <= i < j < ms2.len() implies #[trigger] ms2[i].id != #[trigger] ms2[j].id
        && ms2[i].created_at < ms2[j].created_at by {
        if j < ms2.len() - 1 {
            assert(ms2[i] == v.meetings[i]);
            assert(ms2[j] == v.meetings[j]);
        } else {
            assert(ms2[i] == v.meetings[i]);
            assert(ms2[j] == m);
        }
    }
}

/// Pushing a message with a fresh id and a stamp ahead of the clock
/// preserves the store invariant.
proof fn lemma_inv_push_message(v: StoreView, m: MessageView, clock: int)
    requires
        store_inv(v),
        lookup_message(v.messages, m.id) is None,
        v.clock < m.created_at,
        m.created_at == clock,
        clock <= i64::MAX,
    ensures
        store_inv(StoreView { meetings: v.meetings, messages: v.messages.push(m), clock: clock }),
{
    lemma_message_lookup_none_iff(v.messages, m.id);
    let ms2 = v.messages.push(m);
    assert forall|i: int, j: int|
        0 <= i < j < ms2.len() implies #[trigger] ms2[i].id != #[trigger] ms2[j].id
        && ms2[i].created_at < ms2[j].created_at by {
        if j < ms2.len() - 1 {
            assert(ms2[i] == v.messages[i]);
            assert(ms2[j] == v.messages[j]);
        } else {
            assert(ms2[i] == v.messages[i]);
            assert(ms2[j] == m);
        }
    }
}

/// A status write with a stamp ahead of the clock preserves the store
/// invariant.
proof fn lemma_inv_with_status(v: StoreView, id: u128, status: MeetingStatus, ts: int)
    requires
        store_inv(v),
        v.clock < ts <= i64::MAX,
    ensures
        store_inv(
            StoreView { meetings: with_status(v.meetings, id, status, ts), messages: v.messages, clock: ts },
        ),
{
    let ms2 = with_status(v.meetings, id, status, ts);
    assert(ms2.len() == v.meetings.len());
    assert forall|i: int| 0 <= i < ms2.len() implies (#[trigger] ms2[i]).id == v.meetings[i].id
        && ms2[i].created_at == v.meetings[i].created_at
        && v.meetings[i].created_at <= ms2[i].updated_at <= ts by {
        assert(v.meetings[i].updated_at <= v.clock);
    }
}

impl RefinementMeeting {
    /// Inserts a meeting under a caller-supplied id: the row starts
    /// `Active`, both its stamps equal the freshly assigned one, and it
    /// becomes the newest row of the table. Succeeds exactly when the id is
    /// not yet taken and the clock can still advance; on failure the store
    /// is untouched.
    pub fn create_with_id(
        store: &mut MeetingStore,
        id: u128,
        project_id: u128,
        title: String,
        now: i64,
    ) -> (r: Result<RefinementMeeting, StorageError>)
        requires
            old(store).wf(),
        ensures
            final(store).wf(),
            match r {
                Ok(m) => {
                    &&& old(store)@.clock < i64::MAX
                    &&& lookup_meeting(old(store)@.meetings, id) is None
                    &&& m@ == (MeetingView {
                        id: id,
                        project_id: project_id,
                        title: title@,
                        status: MeetingStatus::Active,
                        created_at: next_stamp(old(store)@.clock, now as int),
                        updated_at: next_stamp(old(store)@.clock, now as int),
                    })
                    &&& final(store)@.meetings == old(store)@.meetings.push(m@)
                    &&& final(store)@.messages == old(store)@.messages
                    &&& final(store)@.clock == next_stamp(old(store)@.clock, now as int)
                },
                Err(StorageError::ClockExhausted) => {
                    &&& old(store)@.clock == i64::MAX
                    &&& *final(store) == *old(store)
                },
                Err(StorageError::DuplicateId) => {
                    &&& old(store)@.clock < i64::MAX
                    &&& lookup_meeting(old(store)@.meetings, id) is Some
                    &&& *final(store) == *old(store)
                },
            },
    {
        let ts = match stamp_after(store.clock, now) {
            None => {
                return Err(StorageError::ClockExhausted);
            },
            Some(t) => t,
        };
        if Self::find_by_id(&*store, id).is_some() {
            return Err(StorageError::DuplicateId);
        }
        let stored = RefinementMeeting {
            id: id,
            project_id: project_id,
            title: title,
            status: MeetingStatus::Active,
            created_at: ts,
            updated_at: ts,
        };
        let returned = stored.duplicate();
        proof {
            lemma_inv_push_meeting(old(store)@, stored@, ts as int);
        }
        store.meetings.push(stored);
        store.clock = ts;
        proof {
            assert(store@.meetings =~= old(store)@.meetings.push(returned@));
            assert(store@.messages =~= old(store)@.messages);
        }
        Ok(returned)
    }

    /// Inserts a meeting under a freshly drawn random id. The drawn id is
    /// outside this function's control: success means it was fresh and the
    /// row is the newest of the table. A duplicate-id failure means the draw
    /// collided with a stored row — so it can only happen on a non-empty
    /// table with a live clock; on an empty table with a live clock success
    /// is certain, whatever was drawn.
    pub fn create(store: &mut MeetingStore, project_id: u128, title: String, now: i64) -> (r:
        Result<RefinementMeeting, StorageError>)
        requires
            old(store).wf(),
        ensures
            final(store).wf(),
            match r {
                Ok(m) => {
                    &&& m@.project_id == project_id
                    &&& m@.title == title@
                    &&& m@.status == MeetingStatus::Active
                    &&& m@.created_at == next_stamp(old(store)@.clock, now as int)
                    &&& m@.updated_at == m@.created_at
                    &&& lookup_meeting(old(store)@.meetings, m@.id) is None
                    &&& final(store)@.meetings == old(store)@.meetings.push(m@)
                    &&& final(store)@.messages == old(store)@.messages
                    &&& final(store)@.clock == next_stamp(old(store)@.clock, now as int)
                },
                Err(StorageError::ClockExhausted) => {
                    &&& old(store)@.clock == i64::MAX
                    &&& *final(store) == *old(store)
                },
                Err(StorageError::DuplicateId) => {
                    &&& old(store)@.meetings.len() > 0
                    &&& old(store)@.clock < i64::MAX
                    &&& *final(store) == *old(store)
                },
            },
    {
        let id = crate::idgen::fresh_uuid();
        let r = Self::create_with_id(store, id, project_id, title, now);
        proof {
            // a lookup can only succeed in a non-empty table
            if lookup_meeting(old(store)@.meetings, id) is Some {
                assert(old(store)@.meetings.len() > 0);
            }
        }
        r
    }

    /// Looks a meeting up by id. Absence is a normal outcome: `None`, never
    /// an error and never a default value.
    pub fn find_by_id(store: &MeetingStore, id: u128) -> (r: Option<RefinementMeeting>)
        requires
            store.wf(),
        ensures
            match r {
                Some(m) => lookup_meeting(store@.meetings, id) == Some(m@),
                None => lookup_meeting(store@.meetings, id) is None,
            },
    {
        let n = store.meetings.len();
        let mut i: usize = n;
        proof {
            assert(store@.meetings.take(n as int) =~= store@.meetings);
        }
        while i > 0
            invariant
                store.wf(),
                i <= n,
                n == store.meetings.len(),
                lookup_meeting(store@.meetings, id) == lookup_meeting(
                    store@.meetings.take(i as int),
                    id,
                ),
            decreases i,
        {
            i = i - 1;
            let m = &store.meetings[i];
            proof {
                assert(store@.meetings.take(i + 1).drop_last() =~= store@.meetings.take(i as int));
                assert(store@.meetings.take(i + 1).last() == store@.meetings[i as int]);
            }
            if m.id == id {
                return Some(m.duplicate());
            }
        }
        proof {
            assert(store@.meetings.take(0) =~= Seq::<MeetingView>::empty());
        }
        None
    }

    /// Lists the meetings of one project, ordered by creation time
    /// descending (newest first); an empty vector, not an error, when the
    /// project has none.
    pub fn find_by_project(store: &MeetingStore, project_id: u128) -> (r: Vec<RefinementMeeting>)
        requires
            store.wf(),
        ensures
            meeting_views(r@) == project_listing(store@.meetings, project_id),
    {
        let n = store.meetings.len();
        let mut out: Vec<RefinementMeeting> = Vec::new();
        let mut i: usize = n;
        proof {
            assert(meeting_views(out@) =~= Seq::<MeetingView>::empty());
            assert(store@.meetings.take(n as int) =~= store@.meetings);
        }
        while i > 0
            invariant
                store.wf(),
                i <= n,
                n == store.meetings.len(),
                project_listing(store@.meetings, project_id) == meeting_views(out@)
                    + project_listing(store@.meetings.take(i as int), project_id),
            decreases i,
        {
            i = i - 1;
            let ghost prefix = store@.meetings.take(i + 1);
            proof {
                assert(prefix.drop_last() =~= store@.meetings.take(i as int));
                assert(prefix.last() == store@.meetings[i as int]);
            }
            let m = &store.meetings[i];
            if m.project_id == project_id {
                let ghost out_before = out@;
                out.push(m.duplicate());
                proof {
                    assert(meeting_views(out@) =~= meeting_views(out_before).push(m@));
                    assert(meeting_views(out_before) + project_listing(prefix, project_id)
                        =~= meeting_views(out@) + project_listing(
                        store@.meetings.take(i as int),
                        project_id,
                    ));
                }
            }
        }
        proof {
            assert(store@.meetings.take(0) =~= Seq::<MeetingView>::empty());
            assert(meeting_views(out@) + project_listing(store@.meetings.take(0), project_id)
                =~= meeting_views(out@));
        }
        out
    }

    /// Writes a status unconditionally and refreshes `updated_at` with a
    /// fresh stamp. When the id does not exist the write succeeds silently
    /// and changes nothing: there is deliberately no affected-row check, so
    /// absence is not surfaced on this path.
    pub fn update_status(
        store: &mut MeetingStore,
        id: u128,
        status: MeetingStatus,
        now: i64,
    ) -> (r: Result<(), StorageError>)
        requires
            old(store).wf(),
        ensures
            final(store).wf(),
            match r {
                Ok(_) => {
                    if lookup_meeting(old(store)@.meetings, id) is Some {
                        &&& old(store)@.clock < i64::MAX
                        &&& final(store)@.meetings == with_status(
                            old(store)@.meetings,
                            id,
                            status,
                            next_stamp(old(store)@.clock, now as int),
                        )
                        &&& final(store)@.messages == old(store)@.messages
                        &&& final(store)@.clock == next_stamp(old(store)@.clock, now as int)
                    } else {
                        *final(store) == *old(store)
                    }
                },
                Err(e) => {
                    &&& e == StorageError::ClockExhausted
                    &&& lookup_meeting(old(store)@.meetings, id) is Some
                    &&& old(store)@.clock == i64::MAX
                    &&& *final(store) == *old(store)
                },
            },
    {
        if Self::find_by_id(&*store, id).is_none() {
            return Ok(());
        }
        let ts = match stamp_after(store.clock, now) {
            None => {
                return Err(StorageError::ClockExhausted);
            },
            Some(t) => t,
        };
        let ghost target = with_status(old(store)@.meetings, id, status, ts as int);
        let n = store.meetings.len();
        let mut updated: Vec<RefinementMeeting> = Vec::new();
        let mut i: usize = 0;
        proof {
            assert(meeting_views(updated@) =~= target.take(0));
        }
        while i < n
            invariant
                *store == *old(store),
                old(store).wf(),
                i <= n,
                n == store.meetings.len(),
                target == with_status(old(store)@.meetings, id, status, ts as int),
                meeting_views(updated@) == target.take(i as int),
            decreases n - i,
        {
            let m = &store.meetings[i];
            let ghost updated_before = updated@;
            if m.id == id {
                updated.push(
                    RefinementMeeting {
                        id: m.id,
                        project_id: m.project_id,
                        title: m.title.clone(),
                        status: status,
                        created_at: m.created_at,
                        updated_at: ts,
                    },
                );
            } else {
                updated.push(m.duplicate());
            }
            proof {
                assert(target[i as int] == updated@.last()@);
                assert(meeting_views(updated@) =~= meeting_views(updated_before).push(
                    updated@.last()@,
                ));
                assert(target.take(i + 1) =~= target.take(i as int).push(target[i as int]));
                assert(meeting_views(updated@) == target.take(i + 1));
            }
            i = i + 1;
        }
        proof {
            assert(target.take(n as int) =~= target);
            lemma_inv_with_status(old(store)@, id, status, ts as int);
        }
        store.meetings = updated;
        store.clock = ts;
        proof {
            assert(store@.messages =~= old(store)@.messages);
        }
        Ok(())
    }
}

impl MeetingMessage {
    /// Appends a message under a caller-supplied id: the row carries the
    /// freshly assigned stamp and becomes the newest row of its table. The
    /// store itself does not check that the meeting exists — that rule
    /// belongs to the request layer. Succeeds exactly when the id is not yet
    /// taken and the clock can still advance; on failure the store is
    /// untouched.
    pub fn create_with_id(
        store: &mut MeetingStore,
        id: u128,
        meeting_id: u128,
        role: String,
        content: String,
        now: i64,
    ) -> (r: Result<MeetingMessage, StorageError>)
        requires
            old(store).wf(),
        ensures
            final(store).wf(),
            match r {
                Ok(m) => {
                    &&& old(store)@.clock < i64::MAX
                    &&& lookup_message(old(store)@.messages, id) is None
                    &&& m@ == (MessageView {
                        id: id,
                        meeting_id: meeting_id,
                        role: role@,
                        content: content@,
                        created_at: next_stamp(old(store)@.clock, now as int),
                    })
                    &&& final(store)@.messages == old(store)@.messages.push(m@)
                    &&& final(store)@.meetings == old(store)@.meetings
                    &&& final(store)@.clock == next_stamp(old(store)@.clock, now as int)
                },
                Err(StorageError::ClockExhausted) => {
                    &&& old(store)@.clock == i64::MAX
                    &&& *final(store) == *old(store)
                },
                Err(StorageError::DuplicateId) => {
                    &&& old(store)@.clock < i64::MAX
                    &&& lookup_message(old(store)@.messages, id) is Some
                    &&& *final(store) == *old(store)
                },
            },
    {
        let ts = match stamp_after(store.clock, now) {
            None => {
                return Err(StorageError::ClockExhausted);
            },
            Some(t) => t,
        };
        if message_id_taken(&*store, id) {
            return Err(StorageError::DuplicateId);
        }
        let stored = MeetingMessage {
            id: id,
            meeting_id: meeting_id,
            role: role,
            content: content,
            created_at: ts,
        };
        let returned = stored.duplicate();
        proof {
            lemma_inv_push_message(old(store)@, stored@, ts as int);
        }
        store.messages.push(stored);
        store.clock = ts;
        proof {
            assert(store@.messages =~= old(store)@.messages.push(returned@));
            assert(store@.meetings =~= old(store)@.meetings);
        }
        Ok(returned)
    }

    /// Appends a message under a freshly drawn random id; as for meetings,
    /// a duplicate-id failure means the draw collided with a stored row, so
    /// it can only happen on a non-empty table with a live clock — on an
    /// empty table with a live clock success is certain, whatever was drawn.
    pub fn create(
        store: &mut MeetingStore,
        meeting_id: u128,
        role: String,
        content: String,
        now: i64,
    ) -> (r: Result<MeetingMessage, StorageError>)
        requires
            old(store).wf(),
        ensures
            final(store).wf(),
            match r {
                Ok(m) => {
                    &&& m@.meeting_id == meeting_id
                    &&& m@.role == role@
                    &&& m@.content == content@
                    &&& m@.created_at == next_stamp(old(store)@.clock, now as int)
                    &&& lookup_message(old(store)@.messages, m@.id) is None
                    &&& final(store)@.messages == old(store)@.messages.push(m@)
                    &&& final(store)@.meetings == old(store)@.meetings
                    &&& final(store)@.clock == next_stamp(old(store)@.clock, now as int)
                },
                Err(StorageError::ClockExhausted) => {
                    &&& old(store)@.clock == i64::MAX
                    &&& *final(store) == *old(store)
                },
                Err(StorageError::DuplicateId) => {
                    &&& old(store)@.messages.len() > 0
                    &&& old(store)@.clock < i64::MAX
                    &&& *final(store) == *old(store)
                },
            },
    {
        let id = crate::idgen::fresh_uuid();
        let r = Self::create_with_id(store, id, meeting_id, role, content, now);
        proof {
            // a lookup can only succeed in a non-empty table
            if lookup_message(old(store)@.messages, id) is Some {
                assert(old(store)@.messages.len() > 0);
            }
        }
        r
    }

    /// Lists one meeting's transcript, ordered by creation time ascending
    /// (chronological); an empty vector when there are no messages — also
    /// for a meeting id that does not exist, since this path deliberately
    /// makes no existence check.
    pub fn find_by_meeting(store: &MeetingStore, meeting_id: u128) -> (r: Vec<MeetingMessage>)
        requires
            store.wf(),
        ensures
            message_views(r@) == meeting_transcript(store@.messages, meeting_id),
    {
        let n = store.messages.len();
        let mut out: Vec<MeetingMessage> = Vec::new();
        let mut i: usize = 0;
        proof {
            assert(message_views(out@) =~= Seq::<MessageView>::empty());
            assert(store@.messages.take(0) =~= Seq::<MessageView>::empty());
        }
        while i < n
            invariant
                store.wf(),
                i <= n,
                n == store.messages.len(),
                message_views(out@) == meeting_transcript(
                    store@.messages.take(i as int),
                    meeting_id,
                ),
            decreases n - i,
        {
            let ghost prefix = store@.messages.take(i + 1);
            proof {
                assert(prefix.drop_last() =~= store@.messages.take(i as int));
                assert(prefix.last() == store@.messages[i as int]);
            }
            let m = &store.messages[i];
            if m.meeting_id == meeting_id {
                let ghost out_before = out@;
                out.push(m.duplicate());
                proof {
                    assert(message_views(out@) =~= message_views(out_before).push(m@));
                }
            }
            i = i + 1;
        }
        proof {
            assert(store@.messages.take(n as int) =~= store@.messages);
        }
        out
    }
}

/// Whether some stored message already carries the id; used for the
/// duplicate-key check on insertion.
fn message_id_taken(store: &MeetingStore, id: u128) -> (r: bool)
    requires
        store.wf(),
    ensures
        r == (lookup_message(store@.messages, id) is Some),
{
    let n = store.messages.len();
    let mut i: usize = n;
    proof {
        assert(store@.messages.take(n as int) =~= store@.messages);
    }
    while i > 0
        invariant
            store.wf(),
            i <= n,
            n == store.messages.len(),
            lookup_message(store@.messages, id) == lookup_message(
                store@.messages.take(i as int),
                id,
            ),
        decreases i,
    {
        i = i - 1;
        proof {
            assert(store@.messages.take(i + 1).drop_last() =~= store@.messages.take(i as int));
            assert(store@.messages.take(i + 1).last() == store@.messages[i as int]);
        }
        let m = &store.messages[i];
        if m.id == id {
            return true;
        }
    }
    proof {
        assert(store@.messages.take(0) =~= Seq::<MessageView>::empty());
    }
    false
}

} // verus!
