//! The request layer: one handler per route, each translating between
//! request values and store operations and mapping every outcome to the
//! success value or failure the wire layer will encode.
//!
//! This layer enforces the one cross-entity rule the store does not: a
//! message may only be appended to a meeting that exists. The read side of
//! the transcript deliberately makes no such check — listing messages of an
//! unknown meeting returns an empty list, not a not-found failure. The
//! asymmetry between the two paths is deliberate and documented here rather
//! than reconciled.

use vstd::prelude::*;

use crate::model::{MeetingMessage, MeetingStatus, MeetingView, RefinementMeeting};
use crate::store::{
    lookup_meeting, meeting_transcript, meeting_views, message_views, next_stamp, project_listing,
    MeetingStore, StorageError, StoreView,
};

verus! {

/// Body of a meeting-creation request.
pub struct CreateMeetingRequest {
    pub project_id: u128,
    pub title: String,
}

/// Query of a meeting-listing request.
pub struct ListMeetingsQuery {
    pub project_id: u128,
}

/// Body of a message-append request.
pub struct AddMessageRequest {
    pub role: String,
    pub content: String,
}

/// The single-field error body every non-success response carries.
pub struct ApiError {
    pub error: String,
}

/// Failure of a request: either the addressed entity is absent, or the
/// store failed. Absence is a normal branch of control flow; a store
/// failure surfaces its own message.
#[derive(Debug, Clone, Copy, PartialEq, Eq, Structural)]
pub enum ApiFailure {
    NotFound,
    Storage(StorageError),
}

impl ApiFailure {
    /// The human-readable message this failure carries.
    pub open spec fn message_spec(self) -> Seq<char> {
        match self {
            ApiFailure::NotFound => "Meeting not found"@,
            ApiFailure::Storage(e) => e.describe_spec(),
        }
    }

    /// The HTTP status this failure maps to: 404 for absence, 500 for a
    /// store failure.
    pub fn status_code(&self) -> (r: u16)
        ensures
            r == (match self {
                ApiFailure::NotFound => 404u16,
                ApiFailure::Storage(_) => 500u16,
            }),
    {
        match self {
            ApiFailure::NotFound => 404,
            ApiFailure::Storage(_) => 500,
        }
    }

    /// The error body this failure maps to.
    pub fn to_body(&self) -> (r: ApiError)
        ensures
            r.error@ == self.message_spec(),
    {
        match self {
            ApiFailure::NotFound => ApiError { error: "Meeting not found".to_owned() },
            ApiFailure::Storage(e) => ApiError { error: e.describe() },
        }
    }
}

/// The cross-entity rule the request layer maintains: every stored message
/// belongs to a meeting that exists.
pub open spec fn api_consistent(v: StoreView) -> bool {
    forall|i: int|
        0 <= i < v.messages.len() ==> lookup_meeting(
            v.meetings,
            (#[trigger] v.messages[i]).meeting_id,
        ) is Some
}

/// A lookup that succeeds still succeeds after a new meeting is appended.
pub proof fn lemma_lookup_after_push(ms: Seq<MeetingView>, m: MeetingView, id: u128)
    requires
        lookup_meeting(ms, id) is Some,
    ensures
        lookup_meeting(ms.push(m), id) is Some,
{
    assert(ms.push(m).drop_last() =~= ms);
}

/// Handles meeting creation: inserts a fresh meeting that echoes the
/// requested project id and title exactly and starts in the default
/// `Active` state.
pub fn create_meeting(store: &mut MeetingStore, req: CreateMeetingRequest, now: i64) -> (r:
    Result<RefinementMeeting, ApiFailure>)
    requires
        old(store).wf(),
    ensures
        final(store).wf(),
        api_consistent(old(store)@) ==> api_consistent(final(store)@),
        match r {
            Ok(m) => {
                &&& m@.project_id == req.project_id
                &&& m@.title == req.title@
                &&& m@.status == MeetingStatus::Active
                &&& m@.created_at == next_stamp(old(store)@.clock, now as int)
                &&& m@.updated_at == m@.created_at
                &&& lookup_meeting(old(store)@.meetings, m@.id) is None
                &&& final(store)@.meetings == old(store)@.meetings.push(m@)
                &&& final(store)@.messages == old(store)@.messages
                &&& final(store)@.clock == next_stamp(old(store)@.clock, now as int)
            },
            Err(ApiFailure::NotFound) => false,
            Err(ApiFailure::Storage(e)) => {
                &&& *final(store) == *old(store)
                &&& (e == StorageError::ClockExhausted ==> old(store)@.clock == i64::MAX)
                &&& (e == StorageError::DuplicateId ==> old(store)@.meetings.len() > 0
                    && old(store)@.clock < i64::MAX)
            },
        },
{
    match RefinementMeeting::create(store, req.project_id, req.title, now) {
        Ok(m) => {
            proof {
                if api_consistent(old(store)@) {
                    assert forall|i: int| 0 <= i < store@.messages.len() implies lookup_meeting(
                        store@.meetings,
                        (#[trigger] store@.messages[i]).meeting_id,
                    ) is Some by {
                        lemma_lookup_after_push(
                            old(store)@.meetings,
                            m@,
                            store@.messages[i].meeting_id,
                        );
                    }
                }
            }
            Ok(m)
        },
        Err(e) => Err(ApiFailure::Storage(e)),
    }
}

/// Handles meeting listing: the project's meetings, newest first; an empty
/// list (never a failure) when the project has none.
pub fn list_meetings(store: &MeetingStore, query: ListMeetingsQuery) -> (r: Vec<RefinementMeeting>)
    requires
        store.wf(),
    ensures
        meeting_views(r@) == project_listing(store@.meetings, query.project_id),
{
    RefinementMeeting::find_by_project(store, query.project_id)
}

/// Handles a meeting fetch: the meeting when it exists, the not-found
/// failure — never a default value — when it does not.
pub fn get_meeting(store: &MeetingStore, id: u128) -> (r: Result<RefinementMeeting, ApiFailure>)
    requires
        store.wf(),
    ensures
        match r {
            Ok(m) => lookup_meeting(store@.meetings, id) == Some(m@),
            Err(f) => {
                &&& f == ApiFailure::NotFound
                &&& lookup_meeting(store@.meetings, id) is None
            },
        },
{
    match RefinementMeeting::find_by_id(store, id) {
        Some(m) => Ok(m),
        None => Err(ApiFailure::NotFound),
    }
}

/// Handles a message append: the meeting's existence is checked first —
/// the store itself does not check it — and an absent meeting yields the
/// not-found failure with no write at all.
pub fn add_message(
    store: &mut MeetingStore,
    meeting_id: u128,
    req: AddMessageRequest,
    now: i64,
) -> (r: Result<MeetingMessage, ApiFailure>)
    requires
        old(store).wf(),
    ensures
        final(store).wf(),
        api_consistent(old(store)@) ==> api_consistent(final(store)@),
        match r {
            Ok(m) => {
                &&& lookup_meeting(old(store)@.meetings, meeting_id) is Some
                &&& m@.meeting_id == meeting_id
                &&& m@.role == req.role@
                &&& m@.content == req.content@
                &&& m@.created_at == next_stamp(old(store)@.clock, now as int)
                &&& final(store)@.messages == old(store)@.messages.push(m@)
                &&& final(store)@.meetings == old(store)@.meetings
                &&& final(store)@.clock == next_stamp(old(store)@.clock, now as int)
            },
            Err(ApiFailure::NotFound) => {
                &&& lookup_meeting(old(store)@.meetings, meeting_id) is None
                &&& *final(store) == *old(store)
            },
            Err(ApiFailure::Storage(e)) => {
                &&& lookup_meeting(old(store)@.meetings, meeting_id) is Some
                &&& *final(store) == *old(store)
                &&& (e == StorageError::ClockExhausted ==> old(store)@.clock == i64::MAX)
                &&& (e == StorageError::DuplicateId ==> old(store)@.messages.len() > 0
                    && old(store)@.clock < i64::MAX)
            },
        },
{
    if RefinementMeeting::find_by_id(&*store, meeting_id).is_none() {
        return Err(ApiFailure::NotFound);
    }
    match MeetingMessage::create(store, meeting_id, req.role, req.content, now) {
        Ok(m) => {
            proof {
                if api_consistent(old(store)@) {
                    assert forall|i: int| 0 <= i < store@.messages.len() implies lookup_meeting(
                        store@.meetings,
                        (#[trigger] store@.messages[i]).meeting_id,
                    ) is Some by {
                        if i < store@.messages.len() - 1 {
                            assert(store@.messages[i] == old(store)@.messages[i]);
                        } else {
                            assert(store@.messages[i] == m@);
                        }
                    }
                }
            }
            Ok(m)
        },
        Err(e) => Err(ApiFailure::Storage(e)),
    }
}

/// Handles a transcript listing: the meeting's messages in chronological
/// order. Deliberately no existence check: an unknown meeting id yields an
/// empty list, not a not-found failure.
pub fn list_messages(store: &MeetingStore, meeting_id: u128) -> (r: Vec<MeetingMessage>)
    requires
        store.wf(),
    ensures
        message_views(r@) == meeting_transcript(store@.messages, meeting_id),
{
    MeetingMessage::find_by_meeting(store, meeting_id)
}

} // verus!
