//! What holds of a whole exchange with a display.
use vstd::prelude::*;
use crate::miracast::rtsp::{response_view, ActionView, MessageView, StartLineView};
use crate::miracast::source::session::{
    handled, question_text, started, ticked, SourceSessionState, M2_GRACE, PUBLIC,
};
use crate::text::{has_at, has_part};
use crate::time::{since, Instant};

verus! {

/// What happens to a session: a message arrives, or time passes.
pub enum Event {
    Heard(MessageView, Instant),
    Tick(Instant),
}

/// What one event comes to.
pub open spec fn stepped(s: SourceSessionState, e: Event) -> (SourceSessionState, Seq<ActionView>) {
    match e {
        Event::Heard(m, now) => handled(s, m, now),
        Event::Tick(now) => ticked(s, now),
    }
}

/// A session that was started, after some events, and all its actions.
pub open spec fn exchanged(fresh: SourceSessionState, events: Seq<Event>) -> (
    SourceSessionState,
    Seq<ActionView>,
)
    decreases events.len(),
{
    if events.len() == 0 {
        started(fresh)
    } else {
        let (s, acts) = exchanged(fresh, events.drop_last());
        let (t, more) = stepped(s, events.last());
        (t, acts + more)
    }
}

/// Whether an action asks the display what it can take: a `GET_PARAMETER` that
/// names the video formats.
pub open spec fn is_question(a: ActionView) -> bool {
    a matches ActionView::Send(m) && (m.start matches StartLineView::Request { method, .. }
        && method == "GET_PARAMETER"@) && has_part(m.body, "wfd_video_formats"@)
}

/// Whether one of some actions asks it.
pub open spec fn questions(acts: Seq<ActionView>) -> bool {
    exists|i: int| 0 <= i < acts.len() && is_question(#[trigger] acts[i])
}

/// Whether an event is an answer that accepts.
pub open spec fn accepts(e: Event) -> bool {
    e matches Event::Heard(m, _) && (m.start matches StartLineView::Response { status, .. }
        && status == 200)
}

/// Whether an event is the display's `OPTIONS`.
pub open spec fn is_options(e: Event) -> bool {
    e matches Event::Heard(m, _) && (m.start matches StartLineView::Request { method, .. }
        && method == "OPTIONS"@)
}

/// When the display last accepted something.
pub open spec fn last_accepted(events: Seq<Event>) -> Option<Instant>
    decreases events.len(),
{
    if events.len() == 0 {
        None
    } else if accepts(events.last()) {
        Some(events.last()->Heard_1)
    } else {
        last_accepted(events.drop_last())
    }
}

/// Whether an event brings the question out, given when the display last
/// accepted something.
pub open spec fn brings_it(accepted: Option<Instant>, e: Event) -> bool {
    accepted matches Some(t) && (is_options(e) || (e matches Event::Tick(now) && since(now, t)
        >= M2_GRACE))
}

proof fn lemma_words()
    ensures
        has_part(question_text(), "wfd_video_formats"@),
        !has_part(""@, "wfd_video_formats"@),
        "SET_PARAMETER"@ != "GET_PARAMETER"@,
        "OPTIONS"@ != "GET_PARAMETER"@,
{
    reveal_strlit("wfd_video_formats");
    reveal_strlit("");
    reveal_strlit("SET_PARAMETER");
    reveal_strlit("GET_PARAMETER");
    reveal_strlit("OPTIONS");
    reveal_strlit(
        "wfd_video_formats\r\nwfd_audio_codecs\r\nwfd_content_protection\r\nwfd_client_rtp_ports\r\n",
    );
    let q = question_text();
    let w = "wfd_video_formats"@;
    assert(q.subrange(0, w.len() as int) =~= w);
    assert(has_at(q, w, 0));
    assert("SET_PARAMETER"@[0] == 'S' && "GET_PARAMETER"@[0] == 'G' && "OPTIONS"@[0] == 'O');
    assert(""@.len() == 0 && w.len() > 0);
}

/// What one event does about the question.
proof fn lemma_step(s: SourceSessionState, e: Event)
    ensures
        ({
            let (t, acts) = stepped(s, e);
            let due = !s.asked_caps && brings_it(s.m1_answered, e);
            &&& due ==> acts.len() > 0 && is_question(acts.last()) && t.asked_caps
            &&& forall|i: int|
                0 <= i < acts.len() ==> (is_question(#[trigger] acts[i]) <==> due && i == acts.len()
                    - 1)
            &&& !due ==> t.asked_caps == s.asked_caps
            &&& !s.asked_caps && !due ==> t.m1_answered == (if accepts(e) {
                Some(e->Heard_1)
            } else {
                s.m1_answered
            })
            &&& due && e is Heard ==> acts.len() == 2 && acts[0] == ActionView::Send(
                response_view(200, e->Heard_0.cseq_or_zero(), ""@).with("Public"@, PUBLIC@),
            )
        }),
{
    lemma_words();
}

proof fn lemma_exchange(fresh: SourceSessionState, events: Seq<Event>)
    requires
        fresh.m1_answered is None,
        !fresh.asked_caps,
    ensures
        ({
            let (s, acts) = exchanged(fresh, events);
            &&& s.asked_caps == questions(acts)
            &&& !s.asked_caps ==> s.m1_answered == last_accepted(events)
            &&& forall|i: int, j: int|
                0 <= i < j < acts.len() ==> !(is_question(#[trigger] acts[i]) && is_question(
                    #[trigger] acts[j],
                ))
        }),
    decreases events.len(),
{
    if events.len() == 0 {
        lemma_words();
        let acts = started(fresh).1;
        assert(!is_question(acts[0]));
    } else {
        let before = events.drop_last();
        lemma_exchange(fresh, before);
        let (s, acts) = exchanged(fresh, before);
        let e = events.last();
        lemma_step(s, e);
        let (t, more) = stepped(s, e);
        let all = acts + more;
        let due = !s.asked_caps && brings_it(s.m1_answered, e);
        assert forall|i: int| 0 <= i < all.len() implies is_question(#[trigger] all[i]) == (if i
            < acts.len() {
            is_question(acts[i])
        } else {
            is_question(more[i - acts.len()])
        }) by {}
        if questions(acts) {
            let k = choose|k: int| 0 <= k < acts.len() && is_question(#[trigger] acts[k]);
            assert(is_question(all[k]));
        }
        if due {
            assert(is_question(more[more.len() - 1]));
            assert(is_question(all[all.len() - 1]));
        }
        if questions(all) {
            let k = choose|k: int| 0 <= k < all.len() && is_question(#[trigger] all[k]);
            if k < acts.len() {
                assert(is_question(acts[k]));
            } else {
                assert(is_question(more[k - acts.len()]));
            }
        }
        assert forall|i: int, j: int| 0 <= i < j < all.len() implies !(is_question(
            #[trigger] all[i],
        ) && is_question(#[trigger] all[j])) by {
            if is_question(all[i]) && is_question(all[j]) {
                if i < acts.len() {
                    assert(is_question(acts[i]));
                } else {
                    assert(is_question(more[i - acts.len()]));
                }
                if j >= acts.len() {
                    assert(is_question(more[j - acts.len()]));
                } else {
                    assert(is_question(acts[j]));
                }
            }
        }
    }
}

/// Over a whole exchange, the display is asked what it can take at most once, and
/// never before it has accepted something. The first `OPTIONS` it sends after
/// that brings the question out, behind the answer to the `OPTIONS`; or else time
/// does, two seconds after the display last accepted something. Nothing else
/// ever does.
pub proof fn law_the_display_is_asked_once_and_in_turn(
    fresh: SourceSessionState,
    events: Seq<Event>,
    e: Event,
)
    requires
        fresh.m1_answered is None,
        !fresh.asked_caps,
    ensures
        ({
            let (s, acts) = exchanged(fresh, events);
            let more = stepped(s, e).1;
            let due = !questions(acts) && brings_it(last_accepted(events), e);
            &&& forall|i: int, j: int|
                0 <= i < j < acts.len() ==> !(is_question(#[trigger] acts[i]) && is_question(
                    #[trigger] acts[j],
                ))
            &&& questions(more) <==> due
            &&& due && is_options(e) ==> more.len() == 2 && more[0] == ActionView::Send(
                response_view(200, e->Heard_0.cseq_or_zero(), ""@).with("Public"@, PUBLIC@),
            ) && is_question(more[1])
        }),
{
    lemma_exchange(fresh, events);
    let s = exchanged(fresh, events).0;
    lemma_step(s, e);
    let more = stepped(s, e).1;
    if !s.asked_caps && brings_it(s.m1_answered, e) {
        assert(is_question(more[more.len() - 1]));
    }
}

} // verus!
