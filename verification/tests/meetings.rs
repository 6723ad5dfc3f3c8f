use meeting_server::api::{
    add_message, create_meeting, get_meeting, list_meetings, list_messages, AddMessageRequest,
    ApiFailure, CreateMeetingRequest, ListMeetingsQuery,
};
use meeting_server::model::{MeetingStatus, RefinementMeeting};
use meeting_server::store::{MeetingStore, StorageError};

fn new_meeting(store: &mut MeetingStore, project_id: u128, title: &str, now: i64) -> RefinementMeeting {
    create_meeting(
        store,
        CreateMeetingRequest { project_id, title: title.to_owned() },
        now,
    )
    .expect("creation against a healthy store succeeds")
}

fn new_message(store: &mut MeetingStore, meeting_id: u128, role: &str, content: &str, now: i64) {
    add_message(
        store,
        meeting_id,
        AddMessageRequest { role: role.to_owned(), content: content.to_owned() },
        now,
    )
    .expect("append to an existing meeting succeeds");
}

#[test]
fn created_meeting_echoes_inputs_and_starts_active() {
    let mut store = MeetingStore::new();
    let m = new_meeting(&mut store, 9001, "Sprint 1", 100);
    assert_eq!(m.project_id, 9001);
    assert_eq!(m.title, "Sprint 1");
    assert_eq!(m.status, MeetingStatus::Active);
    assert_eq!(m.created_at, 100);
    assert_eq!(m.updated_at, 100);
}

#[test]
fn created_then_fetched_is_field_for_field_identical() {
    let mut store = MeetingStore::new();
    let m = new_meeting(&mut store, 7, "Planning", 250);
    let f = get_meeting(&store, m.id).expect("just-created meeting is found");
    assert_eq!(f.id, m.id);
    assert_eq!(f.project_id, m.project_id);
    assert_eq!(f.title, m.title);
    assert_eq!(f.status, m.status);
    assert_eq!(f.created_at, m.created_at);
    assert_eq!(f.updated_at, m.updated_at);
    assert!(f.updated_at >= f.created_at);
}

#[test]
fn listing_returns_only_the_project_newest_first() {
    let mut store = MeetingStore::new();
    let a = new_meeting(&mut store, 1, "A", 10);
    let other = new_meeting(&mut store, 2, "other project", 15);
    let b = new_meeting(&mut store, 1, "B", 20);
    let listed = list_meetings(&store, ListMeetingsQuery { project_id: 1 });
    assert_eq!(listed.len(), 2);
    assert_eq!(listed[0].id, b.id);
    assert_eq!(listed[0].title, "B");
    assert_eq!(listed[1].id, a.id);
    assert_eq!(listed[1].title, "A");
    assert!(listed[0].created_at > listed[1].created_at);
    assert!(listed.iter().all(|m| m.id != other.id));
}

#[test]
fn listing_an_unknown_project_is_empty() {
    let mut store = MeetingStore::new();
    new_meeting(&mut store, 1, "A", 10);
    let listed = list_meetings(&store, ListMeetingsQuery { project_id: 999 });
    assert!(listed.is_empty());
}

#[test]
fn fetching_an_unknown_id_is_not_found_not_an_error() {
    let store = MeetingStore::new();
    assert!(RefinementMeeting::find_by_id(&store, 42).is_none());
    let failure = get_meeting(&store, 42).expect_err("nothing was created");
    assert_eq!(failure, ApiFailure::NotFound);
    assert_eq!(failure.status_code(), 404);
    assert_eq!(failure.to_body().error, "Meeting not found");
}

#[test]
fn append_to_a_missing_meeting_fails_and_writes_nothing() {
    let mut store = MeetingStore::new();
    let r = add_message(
        &mut store,
        42,
        AddMessageRequest { role: "user".to_owned(), content: "hello".to_owned() },
        5,
    );
    assert_eq!(r.expect_err("meeting 42 does not exist"), ApiFailure::NotFound);
    assert!(list_messages(&store, 42).is_empty());
}

#[test]
fn transcript_lists_appends_in_chronological_order() {
    let mut store = MeetingStore::new();
    let m = new_meeting(&mut store, 1, "Sprint 1", 10);
    new_message(&mut store, m.id, "user", "first", 20);
    new_message(&mut store, m.id, "assistant", "second", 30);
    let transcript = list_messages(&store, m.id);
    assert_eq!(transcript.len(), 2);
    assert_eq!(transcript[0].role, "user");
    assert_eq!(transcript[0].content, "first");
    assert_eq!(transcript[1].role, "assistant");
    assert_eq!(transcript[1].content, "second");
    assert!(transcript[0].created_at < transcript[1].created_at);
    assert_eq!(transcript[0].meeting_id, m.id);
    assert_eq!(transcript[1].meeting_id, m.id);
}

#[test]
fn transcript_of_a_meeting_without_messages_is_empty() {
    let mut store = MeetingStore::new();
    let m = new_meeting(&mut store, 1, "quiet", 10);
    assert!(list_messages(&store, m.id).is_empty());
}

#[test]
fn status_update_is_visible_and_advances_updated_at() {
    let mut store = MeetingStore::new();
    let m = new_meeting(&mut store, 1, "Sprint 1", 100);
    RefinementMeeting::update_status(&mut store, m.id, MeetingStatus::Completed, 100)
        .expect("clock can still advance");
    let f = get_meeting(&store, m.id).expect("meeting still exists");
    assert_eq!(f.status, MeetingStatus::Completed);
    assert!(f.updated_at > m.updated_at);
    assert_eq!(f.created_at, m.created_at);
    assert_eq!(f.title, m.title);
}

#[test]
fn status_update_of_a_missing_id_succeeds_silently() {
    let mut store = MeetingStore::new();
    let m = new_meeting(&mut store, 1, "Sprint 1", 100);
    RefinementMeeting::update_status(&mut store, 424242, MeetingStatus::Cancelled, 200)
        .expect("the write succeeds even though nothing matches");
    let f = get_meeting(&store, m.id).expect("meeting still exists");
    assert_eq!(f.status, MeetingStatus::Active);
    assert_eq!(f.updated_at, m.updated_at);
}

#[test]
fn fetching_twice_without_writes_is_identical() {
    let mut store = MeetingStore::new();
    let m = new_meeting(&mut store, 1, "Sprint 1", 100);
    let first = get_meeting(&store, m.id).expect("found");
    let second = get_meeting(&store, m.id).expect("found");
    assert_eq!(first.id, second.id);
    assert_eq!(first.project_id, second.project_id);
    assert_eq!(first.title, second.title);
    assert_eq!(first.status, second.status);
    assert_eq!(first.created_at, second.created_at);
    assert_eq!(first.updated_at, second.updated_at);
}

#[test]
fn stamps_stay_strictly_increasing_when_the_wall_clock_stalls() {
    let mut store = MeetingStore::new();
    let a = new_meeting(&mut store, 1, "A", 50);
    let b = new_meeting(&mut store, 1, "B", 10);
    assert_eq!(a.created_at, 50);
    assert_eq!(b.created_at, 51);
}

#[test]
fn drawn_ids_differ_between_creations() {
    let mut store = MeetingStore::new();
    let a = new_meeting(&mut store, 1, "A", 10);
    let b = new_meeting(&mut store, 1, "B", 20);
    assert_ne!(a.id, b.id);
}

#[test]
fn duplicate_id_insert_is_rejected_and_changes_nothing() {
    let mut store = MeetingStore::new();
    let first =
        RefinementMeeting::create_with_id(&mut store, 5, 1, "first".to_owned(), 10).expect("fresh id");
    let second = RefinementMeeting::create_with_id(&mut store, 5, 1, "second".to_owned(), 20);
    assert_eq!(second.expect_err("id 5 is taken"), StorageError::DuplicateId);
    let f = get_meeting(&store, 5).expect("original row is intact");
    assert_eq!(f.title, first.title);
    assert_eq!(list_meetings(&store, ListMeetingsQuery { project_id: 1 }).len(), 1);
}

#[test]
fn an_exhausted_clock_surfaces_as_a_storage_failure() {
    let mut store = MeetingStore::new();
    let m = RefinementMeeting::create_with_id(&mut store, 1, 1, "last".to_owned(), i64::MAX)
        .expect("the clock can reach its end exactly once");
    assert_eq!(m.created_at, i64::MAX);
    let next = RefinementMeeting::create_with_id(&mut store, 2, 1, "next".to_owned(), 0);
    assert_eq!(next.expect_err("no stamp is left"), StorageError::ClockExhausted);
    let upd = RefinementMeeting::update_status(&mut store, 1, MeetingStatus::Completed, 0);
    assert_eq!(upd.expect_err("no stamp is left"), StorageError::ClockExhausted);
    let failure = ApiFailure::Storage(StorageError::ClockExhausted);
    assert_eq!(failure.status_code(), 500);
    assert_eq!(failure.to_body().error, "timestamp clock exhausted");
    assert_eq!(
        ApiFailure::Storage(StorageError::DuplicateId).to_body().error,
        "duplicate row id"
    );
}

#[test]
fn status_wire_names_round_trip_and_reject_out_of_domain() {
    let all = [
        (MeetingStatus::Active, "active"),
        (MeetingStatus::Completed, "completed"),
        (MeetingStatus::Cancelled, "cancelled"),
    ];
    for (status, name) in all {
        assert_eq!(status.to_wire(), name);
        assert_eq!(MeetingStatus::from_wire(name), Some(status));
    }
    assert_eq!(MeetingStatus::from_wire("archived"), None);
    assert_eq!(MeetingStatus::from_wire("Active"), None);
    assert_eq!(MeetingStatus::from_wire(""), None);
    assert_eq!(MeetingStatus::default(), MeetingStatus::Active);
}

#[test]
fn messages_of_different_meetings_stay_separate() {
    let mut store = MeetingStore::new();
    let a = new_meeting(&mut store, 1, "A", 10);
    let b = new_meeting(&mut store, 1, "B", 20);
    new_message(&mut store, a.id, "user", "for a", 30);
    new_message(&mut store, b.id, "user", "for b", 40);
    new_message(&mut store, a.id, "assistant", "also for a", 50);
    let ta = list_messages(&store, a.id);
    let tb = list_messages(&store, b.id);
    assert_eq!(ta.len(), 2);
    assert_eq!(ta[0].content, "for a");
    assert_eq!(ta[1].content, "also for a");
    assert_eq!(tb.len(), 1);
    assert_eq!(tb[0].content, "for b");
}
