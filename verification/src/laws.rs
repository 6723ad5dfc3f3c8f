//! The general laws of the library, stated over the store's mathematical
//! image and proved once for every state, every input and every outcome.
//! Each law is phrased with the same spec functions the operations'
//! contracts use, so it composes directly with them.

use vstd::prelude::*;

use crate::api::api_consistent;
use crate::model::{MeetingStatus, MeetingView, MessageView};
use crate::store::{
    lookup_meeting, meeting_transcript, project_listing, store_inv, with_status, StoreView,
};

verus! {

/// A meeting created under a fresh id is found by that id afterwards,
/// field for field as it was created — in particular with the `updated_at`
/// its creation assigned, which equals its `created_at`.
pub proof fn lemma_created_meeting_is_found(ms: Seq<MeetingView>, m: MeetingView)
    requires
        lookup_meeting(ms, m.id) is None,
    ensures
        lookup_meeting(ms.push(m), m.id) == Some(m),
{
    assert(ms.push(m).last() == m);
}

/// Strictly ascending creation order, as the store keeps its meeting table.
pub open spec fn created_ascending(ms: Seq<MeetingView>) -> bool {
    forall|i: int, j: int|
        #![trigger ms[i], ms[j]]
        0 <= i < j < ms.len() ==> ms[i].created_at < ms[j].created_at
}

/// Strictly ascending creation order, as the store keeps its message table.
pub open spec fn stamps_ascending(msgs: Seq<MessageView>) -> bool {
    forall|i: int, j: int|
        #![trigger msgs[i], msgs[j]]
        0 <= i < j < msgs.len() ==> msgs[i].created_at < msgs[j].created_at
}

/// A well-formed store keeps both tables in strictly ascending creation
/// order; this hands the two orderings to the ordering laws below.
pub proof fn lemma_inv_orders(v: StoreView)
    requires
        store_inv(v),
    ensures
        created_ascending(v.meetings),
        stamps_ascending(v.messages),
{
}

/// What a lookup finds is a stored meeting: it carries the looked-up id,
/// and in a well-formed store it was never updated before it was created,
/// so its `updated_at` is at least its `created_at`.
pub proof fn lemma_found_meeting_wellformed(v: StoreView, id: u128)
    requires
        store_inv(v),
        lookup_meeting(v.meetings, id) is Some,
    ensures
        v.meetings.contains(lookup_meeting(v.meetings, id).unwrap()),
        lookup_meeting(v.meetings, id).unwrap().id == id,
        lookup_meeting(v.meetings, id).unwrap().updated_at >= lookup_meeting(
            v.meetings,
            id,
        ).unwrap().created_at,
{
    lemma_lookup_is_stored(v.meetings, id);
    let m = lookup_meeting(v.meetings, id).unwrap();
    let k = choose|k: int| 0 <= k < v.meetings.len() && v.meetings[k] == m;
    assert(v.meetings[k].created_at <= v.meetings[k].updated_at);
}

proof fn lemma_lookup_is_stored(ms: Seq<MeetingView>, id: u128)
    requires
        lookup_meeting(ms, id) is Some,
    ensures
        ms.contains(lookup_meeting(ms, id).unwrap()),
        lookup_meeting(ms, id).unwrap().id == id,
    decreases ms.len(),
{
    if ms.len() > 0 && ms.last().id != id {
        lemma_lookup_is_stored(ms.drop_last(), id);
        let m = lookup_meeting(ms.drop_last(), id).unwrap();
        let k = choose|k: int| 0 <= k < ms.drop_last().len() && ms.drop_last()[k] == m;
        assert(ms[k] == m);
    }
}

/// A project's listing holds exactly the meetings created under that
/// project id, ordered by creation time descending: every listed meeting
/// belongs to the project, a meeting is listed if and only if it is stored
/// under the project, and later positions hold strictly older meetings.
pub proof fn lemma_project_listing_exact(ms: Seq<MeetingView>, project_id: u128)
    requires
        created_ascending(ms),
    ensures
        forall|k: int|
            0 <= k < project_listing(ms, project_id).len() ==> (#[trigger] project_listing(
                ms,
                project_id,
            )[k]).project_id == project_id,
        forall|m: MeetingView|
            #[trigger] project_listing(ms, project_id).contains(m) <==> (ms.contains(m)
                && m.project_id == project_id),
        forall|k: int, l: int|
            #![trigger project_listing(ms, project_id)[k], project_listing(ms, project_id)[l]]
            0 <= k < l < project_listing(ms, project_id).len() ==> project_listing(
                ms,
                project_id,
            )[k].created_at > project_listing(ms, project_id)[l].created_at,
    decreases ms.len(),
{
    let listing = project_listing(ms, project_id);
    if ms.len() > 0 {
        let prefix = ms.drop_last();
        let rest = project_listing(prefix, project_id);
        assert(forall|i: int| 0 <= i < prefix.len() ==> prefix[i] == ms[i]);
        lemma_project_listing_exact(prefix, project_id);

        assert forall|m: MeetingView| ms.contains(m) implies (prefix.contains(m) || m
            == ms.last()) by {
            let k = choose|k: int| 0 <= k < ms.len() && ms[k] == m;
            if k < ms.len() - 1 {
                assert(prefix[k] == m);
            }
        }
        assert forall|m: MeetingView| prefix.contains(m) implies ms.contains(m) by {
            let k = choose|k: int| 0 <= k < prefix.len() && prefix[k] == m;
            assert(ms[k] == m);
        }
        assert(ms.contains(ms.last()));

        // everything listed for the shorter table was created strictly
        // before the newest stored meeting
        assert forall|l: int| 0 <= l < rest.len() implies rest[l].created_at
            < ms.last().created_at by {
            assert(rest.contains(rest[l]));
            let j = choose|j: int| 0 <= j < prefix.len() && prefix[j] == rest[l];
            assert(ms[j] == rest[l]);
        }

        if ms.last().project_id == project_id {
            assert(listing == seq![ms.last()] + rest);
            assert(listing[0] == ms.last());
            assert(forall|l: int| 1 <= l < listing.len() ==> listing[l] == rest[l - 1]);
            assert forall|m: MeetingView| listing.contains(m) implies (ms.contains(m)
                && m.project_id == project_id) by {
                let k = choose|k: int| 0 <= k < listing.len() && listing[k] == m;
                if k > 0 {
                    assert(rest.contains(rest[k - 1]));
                }
            }
            assert forall|m: MeetingView| ms.contains(m) && m.project_id == project_id implies
                listing.contains(m) by {
                if m == ms.last() {
                    assert(listing[0] == m);
                } else {
                    assert(rest.contains(m));
                    let k = choose|k: int| 0 <= k < rest.len() && rest[k] == m;
                    assert(listing[k + 1] == m);
                }
            }
        } else {
            assert(listing == rest);
            assert forall|m: MeetingView| ms.contains(m) && m.project_id == project_id implies
                listing.contains(m) by {
                if m == ms.last() {
                } else {
                    assert(prefix.contains(m));
                }
            }
        }
    }
}

/// Under the request layer's rule that every stored message belongs to an
/// existing meeting, a meeting that does not exist has an empty transcript:
/// a rejected append leaves nothing behind to list.
pub proof fn lemma_no_meeting_no_transcript(v: StoreView, meeting_id: u128)
    requires
        api_consistent(v),
        lookup_meeting(v.meetings, meeting_id) is None,
    ensures
        meeting_transcript(v.messages, meeting_id) == Seq::<MessageView>::empty(),
    decreases v.messages.len(),
{
    if v.messages.len() > 0 {
        assert(v.messages[v.messages.len() - 1] == v.messages.last());
        assert(lookup_meeting(v.meetings, v.messages.last().meeting_id) is Some);
        let rest = StoreView {
            meetings: v.meetings,
            messages: v.messages.drop_last(),
            clock: v.clock,
        };
        assert(forall|i: int| 0 <= i < rest.messages.len() ==> rest.messages[i] == v.messages[i]);
        lemma_no_meeting_no_transcript(rest, meeting_id);
    }
}

/// A store without messages satisfies the request layer's rule outright;
/// with the handlers' own preservation clauses this carries the rule from
/// the fresh store to every state the request layer can reach.
pub proof fn lemma_fresh_store_consistent(v: StoreView)
    requires
        v.messages.len() == 0,
    ensures
        api_consistent(v),
{
}

/// A status write preserves the request layer's rule: it changes no id and
/// removes no meeting, so every stored message's meeting still exists. This
/// keeps the empty-transcript guarantee for absent meetings available to
/// callers that interleave status updates.
pub proof fn lemma_status_update_keeps_consistency(
    v: StoreView,
    id: u128,
    status: MeetingStatus,
    ts: int,
)
    requires
        api_consistent(v),
    ensures
        api_consistent(
            (StoreView {
                meetings: with_status(v.meetings, id, status, ts),
                messages: v.messages,
                clock: ts,
            }),
        ),
{
    let mapped = with_status(v.meetings, id, status, ts);
    assert forall|i: int| 0 <= i < v.messages.len() implies lookup_meeting(
        mapped,
        (#[trigger] v.messages[i]).meeting_id,
    ) is Some by {
        lemma_with_status_keeps_lookup_some(v.meetings, id, status, ts, v.messages[i].meeting_id);
    }
}

proof fn lemma_with_status_keeps_lookup_some(
    ms: Seq<MeetingView>,
    id: u128,
    status: MeetingStatus,
    ts: int,
    sought: u128,
)
    requires
        lookup_meeting(ms, sought) is Some,
    ensures
        lookup_meeting(with_status(ms, id, status, ts), sought) is Some,
    decreases ms.len(),
{
    let mapped = with_status(ms, id, status, ts);
    assert(mapped.len() == ms.len());
    if ms.len() > 0 {
        assert(mapped.last() == mapped[ms.len() - 1]);
        assert(mapped.last().id == ms.last().id);
        if ms.last().id != sought {
            assert(mapped.drop_last() =~= with_status(ms.drop_last(), id, status, ts));
            lemma_with_status_keeps_lookup_some(ms.drop_last(), id, status, ts, sought);
        }
    }
}

/// Appending two messages to one meeting and then listing its transcript
/// yields the earlier transcript followed by exactly those two, in append
/// order — whatever order any other listing may use.
pub proof fn lemma_transcript_after_two_appends(
    msgs: Seq<MessageView>,
    m1: MessageView,
    m2: MessageView,
    meeting_id: u128,
)
    requires
        m1.meeting_id == meeting_id,
        m2.meeting_id == meeting_id,
    ensures
        meeting_transcript(msgs.push(m1).push(m2), meeting_id) == meeting_transcript(
            msgs,
            meeting_id,
        ) + seq![m1, m2],
{
    let s1 = msgs.push(m1);
    let s2 = s1.push(m2);
    assert(s2.drop_last() =~= s1);
    assert(s1.drop_last() =~= msgs);
    assert(s2.last() == m2);
    assert(s1.last() == m1);
    assert(meeting_transcript(s2, meeting_id) == meeting_transcript(s1, meeting_id) + seq![m2]);
    assert(meeting_transcript(s1, meeting_id) == meeting_transcript(msgs, meeting_id) + seq![m1]);
    assert((meeting_transcript(msgs, meeting_id) + seq![m1]) + seq![m2] =~= meeting_transcript(
        msgs,
        meeting_id,
    ) + seq![m1, m2]);
}

/// A meeting's transcript holds exactly the messages appended under that
/// meeting id, in strictly ascending — chronological — creation order,
/// whatever order any listing of meetings may use.
pub proof fn lemma_transcript_chronological(msgs: Seq<MessageView>, meeting_id: u128)
    requires
        stamps_ascending(msgs),
    ensures
        forall|k: int|
            0 <= k < meeting_transcript(msgs, meeting_id).len() ==> (#[trigger] meeting_transcript(
                msgs,
                meeting_id,
            )[k]).meeting_id == meeting_id,
        forall|m: MessageView|
            #[trigger] meeting_transcript(msgs, meeting_id).contains(m) <==> (msgs.contains(m)
                && m.meeting_id == meeting_id),
        forall|k: int, l: int|
            #![trigger meeting_transcript(msgs, meeting_id)[k], meeting_transcript(msgs, meeting_id)[l]]
            0 <= k < l < meeting_transcript(msgs, meeting_id).len() ==> meeting_transcript(
                msgs,
                meeting_id,
            )[k].created_at < meeting_transcript(msgs, meeting_id)[l].created_at,
    decreases msgs.len(),
{
    let transcript = meeting_transcript(msgs, meeting_id);
    if msgs.len() > 0 {
        let prefix = msgs.drop_last();
        let rest = meeting_transcript(prefix, meeting_id);
        assert(forall|i: int| 0 <= i < prefix.len() ==> prefix[i] == msgs[i]);
        lemma_transcript_chronological(prefix, meeting_id);

        assert forall|m: MessageView| msgs.contains(m) implies (prefix.contains(m) || m
            == msgs.last()) by {
            let k = choose|k: int| 0 <= k < msgs.len() && msgs[k] == m;
            if k < msgs.len() - 1 {
                assert(prefix[k] == m);
            }
        }
        assert forall|m: MessageView| prefix.contains(m) implies msgs.contains(m) by {
            let k = choose|k: int| 0 <= k < prefix.len() && prefix[k] == m;
            assert(msgs[k] == m);
        }
        assert(msgs.contains(msgs.last()));

        // everything in the shorter transcript was created strictly before
        // the newest stored message
        assert forall|l: int| 0 <= l < rest.len() implies rest[l].created_at
            < msgs.last().created_at by {
            assert(rest.contains(rest[l]));
            let j = choose|j: int| 0 <= j < prefix.len() && prefix[j] == rest[l];
            assert(msgs[j] == rest[l]);
        }

        if msgs.last().meeting_id == meeting_id {
            assert(transcript == rest + seq![msgs.last()]);
            assert(transcript[transcript.len() - 1] == msgs.last());
            assert(forall|k: int| 0 <= k < rest.len() ==> transcript[k] == rest[k]);
            assert forall|m: MessageView| transcript.contains(m) implies (msgs.contains(m)
                && m.meeting_id == meeting_id) by {
                let k = choose|k: int| 0 <= k < transcript.len() && transcript[k] == m;
                if k < transcript.len() - 1 {
                    assert(rest.contains(rest[k]));
                }
            }
            assert forall|m: MessageView| msgs.contains(m) && m.meeting_id == meeting_id implies
                transcript.contains(m) by {
                if m == msgs.last() {
                    assert(transcript[transcript.len() - 1] == m);
                } else {
                    assert(rest.contains(m));
                    let k = choose|k: int| 0 <= k < rest.len() && rest[k] == m;
                    assert(transcript[k] == m);
                }
            }
        } else {
            assert(transcript == rest);
            assert forall|m: MessageView| msgs.contains(m) && m.meeting_id == meeting_id implies
                transcript.contains(m) by {
                if m == msgs.last() {
                } else {
                    assert(prefix.contains(m));
                }
            }
        }
    }
}

/// After a status write with a stamp newer than the meeting's, a fetch of
/// the meeting sees the new status and a strictly greater `updated_at`,
/// and every other field as it was.
pub proof fn lemma_status_update_observed(
    ms: Seq<MeetingView>,
    m: MeetingView,
    status: MeetingStatus,
    ts: int,
)
    requires
        lookup_meeting(ms, m.id) == Some(m),
        ts > m.updated_at,
    ensures
        lookup_meeting(with_status(ms, m.id, status, ts), m.id) == Some(
            (MeetingView {
                id: m.id,
                project_id: m.project_id,
                title: m.title,
                status: status,
                created_at: m.created_at,
                updated_at: ts,
            }),
        ),
        lookup_meeting(with_status(ms, m.id, status, ts), m.id).unwrap().updated_at
            > m.updated_at,
    decreases ms.len(),
{
    let mapped = with_status(ms, m.id, status, ts);
    assert(mapped.len() == ms.len());
    if ms.len() > 0 {
        assert(mapped.last() == mapped[ms.len() - 1]);
        assert(mapped.drop_last() =~= with_status(ms.drop_last(), m.id, status, ts));
        if ms.last().id == m.id {
            assert(ms.last() == m);
        } else {
            lemma_status_update_observed(ms.drop_last(), m, status, ts);
        }
    }
}

/// Fetching the same meeting id twice against the same store state returns
/// identical values: the result is a function of the state alone, so a read
/// changes nothing and repeats exactly.
pub proof fn lemma_fetch_idempotent(
    v: StoreView,
    id: u128,
    first: Option<MeetingView>,
    second: Option<MeetingView>,
)
    requires
        first == lookup_meeting(v.meetings, id),
        second == lookup_meeting(v.meetings, id),
    ensures
        first == second,
{
}

} // verus!
