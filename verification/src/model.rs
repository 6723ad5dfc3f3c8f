//! The three entities of the data model and their mathematical views.
//!
//! Identifiers are 128-bit values (uuid-shaped on the wire); timestamps are
//! signed 64-bit microsecond counts. Both are plain values here so that every
//! rule about them can be stated and proved; the wire layer converts them to
//! uuid strings and ISO-8601 timestamps.

use vstd::prelude::*;

verus! {

/// Lifecycle state of a refinement meeting. `Active` is the initial state.
/// No transition rules are enforced: any status may replace any other.
#[derive(Debug, Clone, Copy, PartialEq, Eq, Structural)]
pub enum MeetingStatus {
    Active,
    Completed,
    Cancelled,
}

impl MeetingStatus {
    /// The lowercase name this status carries on the wire.
    pub open spec fn wire_name(self) -> Seq<char> {
        match self {
            MeetingStatus::Active => "active"@,
            MeetingStatus::Completed => "completed"@,
            MeetingStatus::Cancelled => "cancelled"@,
        }
    }

    /// Renders the status as its lowercase wire name.
    pub fn to_wire(&self) -> (r: String)
        ensures
            r@ == self.wire_name(),
    {
        match self {
            MeetingStatus::Active => "active".to_owned(),
            MeetingStatus::Completed => "completed".to_owned(),
            MeetingStatus::Cancelled => "cancelled".to_owned(),
        }
    }

    /// Parses a wire name back into a status. Out-of-domain strings are
    /// rejected, never defaulted.
    pub fn from_wire(s: &str) -> (r: Option<MeetingStatus>)
        ensures
            match r {
                Some(st) => s@ == st.wire_name(),
                None => {
                    &&& s@ != "active"@
                    &&& s@ != "completed"@
                    &&& s@ != "cancelled"@
                },
            },
    {
        let owned = s.to_owned();
        if owned == "active".to_owned() {
            Some(MeetingStatus::Active)
        } else if owned == "completed".to_owned() {
            Some(MeetingStatus::Completed)
        } else if owned == "cancelled".to_owned() {
            Some(MeetingStatus::Cancelled)
        } else {
            None
        }
    }
}

impl Default for MeetingStatus {
    /// A meeting starts out `Active`.
    fn default() -> (r: Self)
        ensures
            r == MeetingStatus::Active,
    {
        MeetingStatus::Active
    }
}

/// A refinement meeting: a titled session owned by a project, with a status
/// and a pair of timestamps. `created_at` is fixed at insertion;
/// `updated_at` is refreshed whenever the status changes.
#[derive(Debug)]
pub struct RefinementMeeting {
    pub id: u128,
    pub project_id: u128,
    pub title: String,
    pub status: MeetingStatus,
    pub created_at: i64,
    pub updated_at: i64,
}

/// Mathematical image of a meeting: the same fields over `Seq<char>` and
/// unbounded integers.
pub ghost struct MeetingView {
    pub id: u128,
    pub project_id: u128,
    pub title: Seq<char>,
    pub status: MeetingStatus,
    pub created_at: int,
    pub updated_at: int,
}

impl View for RefinementMeeting {
    type V = MeetingView;

    open spec fn view(&self) -> MeetingView {
        MeetingView {
            id: self.id,
            project_id: self.project_id,
            title: self.title@,
            status: self.status,
            created_at: self.created_at as int,
            updated_at: self.updated_at as int,
        }
    }
}

impl RefinementMeeting {
    /// Copies the meeting field by field; the copy equals the original.
    pub fn duplicate(&self) -> (r: Self)
        ensures
            r == *self,
    {
        RefinementMeeting {
            id: self.id,
            project_id: self.project_id,
            title: self.title.clone(),
            status: self.status,
            created_at: self.created_at,
            updated_at: self.updated_at,
        }
    }
}

/// One turn of a meeting's transcript. Append-only: created, read, never
/// updated or deleted. `role` is free-form text, conventionally `"user"` or
/// `"assistant"`.
#[derive(Debug)]
pub struct MeetingMessage {
    pub id: u128,
    pub meeting_id: u128,
    pub role: String,
    pub content: String,
    pub created_at: i64,
}

/// Mathematical image of a message.
pub ghost struct MessageView {
    pub id: u128,
    pub meeting_id: u128,
    pub role: Seq<char>,
    pub content: Seq<char>,
    pub created_at: int,
}

impl View for MeetingMessage {
    type V = MessageView;

    open spec fn view(&self) -> MessageView {
        MessageView {
            id: self.id,
            meeting_id: self.meeting_id,
            role: self.role@,
            content: self.content@,
            created_at: self.created_at as int,
        }
    }
}

impl MeetingMessage {
    /// Copies the message field by field; the copy equals the original.
    pub fn duplicate(&self) -> (r: Self)
        ensures
            r == *self,
    {
        MeetingMessage {
            id: self.id,
            meeting_id: self.meeting_id,
            role: self.role.clone(),
            content: self.content.clone(),
            created_at: self.created_at,
        }
    }
}

/// A structured artifact produced from a meeting, pending synchronization to
/// an external task board. `synced_to_kanban` stays `false` until an external
/// sync worker marks it; no operation of this core reads or writes outputs.
#[derive(Debug)]
pub struct MeetingOutput {
    pub id: u128,
    pub meeting_id: u128,
    pub output_json: String,
    pub synced_to_kanban: bool,
    pub synced_at: Option<i64>,
}

} // verus!
