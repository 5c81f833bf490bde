//! What the sink does with each message of the exchange, and when it speaks
//! unasked.
use vstd::prelude::*;
use crate::miracast::rtsp::{
    answered, applied, bitrate_asked, chosen_mode, first_word, handled, header_from, idr_asked,
    keepalive_due, parameters_set, session_name, silent, ticked, ActionView, Applied, MessageView,
    NegState, NegotiationState, StartLineView, VideoMode,
};
use crate::miracast::wfd::{capabilities_text, parameters, Pair};
use crate::number::{dec, parse_hex};
use crate::text::{lowered, pieces, trim, words};
use crate::time::Instant;

verus! {

/// Whether an action sends a reply of a status to a message, with that body.
pub open spec fn replies(a: ActionView, status: u16, m: MessageView, body: Seq<char>) -> bool {
    a matches ActionView::Send(r) && {
        &&& r.start matches StartLineView::Response { status: got, .. } && got == status
        &&& r.headers.len() > 0 && r.headers[0] == ("CSeq"@, dec(m.cseq_or_zero() as nat))
        &&& r.body == body
    }
}

/// Whether an action sends a request under a sequence number.
pub open spec fn asks(
    a: ActionView,
    method: Seq<char>,
    uri: Seq<char>,
    cseq: u32,
    body: Seq<char>,
) -> bool {
    a matches ActionView::Send(r) && {
        &&& r.start == (StartLineView::Request { method, uri })
        &&& r.headers.len() > 0 && r.headers[0] == ("CSeq"@, dec(cseq as nat))
        &&& r.body == body
    }
}

/// The number after a sequence number.
pub open spec fn after(n: u32) -> u32 {
    ((n + 1) % 0x1_0000_0000) as u32
}

proof fn lemma_methods()
    ensures
        "OPTIONS"@ != "GET_PARAMETER"@,
        "OPTIONS"@ != "SET_PARAMETER"@,
        "OPTIONS"@ != "TEARDOWN"@,
        "GET_PARAMETER"@ != "SET_PARAMETER"@,
        "GET_PARAMETER"@ != "TEARDOWN"@,
        "SET_PARAMETER"@ != "TEARDOWN"@,
{
    reveal_strlit("OPTIONS");
    reveal_strlit("GET_PARAMETER");
    reveal_strlit("SET_PARAMETER");
    reveal_strlit("TEARDOWN");
    assert("OPTIONS"@.len() == 7 && "TEARDOWN"@.len() == 8);
    assert("GET_PARAMETER"@.len() == 13 && "SET_PARAMETER"@.len() == 13);
    assert("GET_PARAMETER"@[0] == 'G' && "SET_PARAMETER"@[0] == 'S');
}

/// `OPTIONS` is answered with what we understand, and asked in turn; a
/// `GET_PARAMETER` with a body is answered with our capabilities, one without is
/// only acknowledged; `TEARDOWN` ends the session; what we do not know is refused.
/// Whatever came, the source has been heard from.
pub proof fn law_what_requests_do(s: NegotiationState, m: MessageView, now: Instant)
    requires
        m.start is Request,
    ensures
        ({
            let method = m.start->method;
            let (t, acts) = handled(s, m, now);
            &&& t.last_heard == Some(now)
            &&& t.caps == s.caps && t.session_id == s.session_id
            &&& method == "OPTIONS"@ ==> {
                &&& acts.len() == 2
                &&& replies(acts[0], 200, m, ""@)
                &&& asks(acts[1], "OPTIONS"@, "*"@, s.next_cseq, ""@)
                &&& t.next_cseq == after(s.next_cseq)
                &&& t.state == s.state
            }
            &&& method == "GET_PARAMETER"@ && trim(m.body).len() == 0 ==> acts.len() == 1
                && replies(acts[0], 200, m, ""@) && t.state == s.state
            &&& method == "GET_PARAMETER"@ && trim(m.body).len() > 0 ==> acts.len() == 1 && replies(
                acts[0],
                200,
                m,
                capabilities_text(s.caps),
            ) && t.state == NegState::Capabilities
            &&& method == "TEARDOWN"@ ==> acts.len() == 2 && replies(acts[0], 200, m, ""@)
                && acts[1] == ActionView::Teardown("source sent TEARDOWN"@) && t.state
                == NegState::Done
            &&& method != "OPTIONS"@ && method != "GET_PARAMETER"@ && method != "SET_PARAMETER"@
                && method != "TEARDOWN"@ ==> acts.len() == 1 && replies(acts[0], 400, m, ""@)
                && t.state == s.state
        }),
{
    lemma_methods();
    let heard = NegotiationState { last_heard: Some(now), ..s };
    lemma_applied_keeps(heard, None, parameters(m.body), 0);
}

proof fn lemma_applied_keeps(
    s: NegotiationState,
    trigger: Option<Seq<char>>,
    ps: Seq<Pair>,
    i: int,
)
    requires
        0 <= i,
    ensures
        ({
            let t = applied(s, trigger, ps, i).state;
            t == (NegotiationState {
                chosen: t.chosen,
                presentation_url: t.presentation_url,
                ..s
            })
        }),
    decreases ps.len() - i,
{
    if i < ps.len() {
        let (name, value) = ps[i];
        if name == "wfd_video_formats"@ {
            if chosen_mode(value) is Some {
                lemma_applied_keeps(
                    NegotiationState { chosen: chosen_mode(value), ..s },
                    trigger,
                    ps,
                    i + 1,
                );
            }
        } else if name == "wfd_presentation_URL"@ {
            lemma_applied_keeps(
                NegotiationState { presentation_url: first_word(value), ..s },
                trigger,
                ps,
                i + 1,
            );
        } else if name == "wfd_trigger_method"@ {
            lemma_applied_keeps(s, Some(trim(value)), ps, i + 1);
        } else {
            lemma_applied_keeps(s, trigger, ps, i + 1);
        }
    }
}

/// `SET_PARAMETER` is refused if a format in it was never offered. Otherwise it is
/// acknowledged, and where it triggers `SETUP` that is asked for at the address it
/// names and for the port we have.
pub proof fn law_what_parameters_do(s: NegotiationState, m: MessageView, now: Instant)
    requires
        m.start is Request,
        m.start->method == "SET_PARAMETER"@,
    ensures
        ({
            let (t, acts) = handled(s, m, now);
            let heard = NegotiationState { last_heard: Some(now), ..s };
            let a = applied(heard, None, parameters(m.body), 0);
            let set_up = a.ok && a.trigger == Some("SETUP"@);
            &&& !a.ok ==> acts.len() == 1 && replies(acts[0], 400, m, ""@) && t == a.state
            &&& a.ok && !set_up ==> acts.len() == 1 && replies(acts[0], 200, m, ""@) && t == a.state
            &&& set_up ==> {
                &&& acts.len() == 2
                &&& replies(acts[0], 200, m, ""@)
                &&& asks(acts[1], "SETUP"@, a.state.uri(), a.state.next_cseq, ""@)
                &&& acts[1]->Send_0.headers[1] == (
                    "Transport"@,
                    "RTP/AVP/UDP;unicast;client_port="@ + dec(s.caps.ports.rtp_port as nat),
                )
                &&& t.state == NegState::Ready
                &&& t.next_cseq == after(a.state.next_cseq)
                &&& t.chosen == a.state.chosen && t.presentation_url == a.state.presentation_url
            }
        }),
{
    lemma_methods();
}

/// Parameters are taken one after the other: a format has to be the one offered, an
/// address is its first word, a trigger is kept for the end, and anything else is
/// passed over.
pub proof fn law_parameters_are_taken_in_turn(
    s: NegotiationState,
    trigger: Option<Seq<char>>,
    ps: Seq<Pair>,
    i: int,
)
    requires
        0 <= i < ps.len(),
    ensures
        ({
            let (name, value) = ps[i];
            let r = applied(s, trigger, ps, i);
            &&& name == "wfd_video_formats"@ && chosen_mode(value) is None ==> r == (Applied {
                state: s,
                trigger,
                ok: false,
            })
            &&& name == "wfd_video_formats"@ && chosen_mode(value) is Some ==> r == applied(
                NegotiationState { chosen: chosen_mode(value), ..s },
                trigger,
                ps,
                i + 1,
            )
            &&& name == "wfd_presentation_URL"@ ==> r == applied(
                NegotiationState { presentation_url: first_word(value), ..s },
                trigger,
                ps,
                i + 1,
            )
            &&& name == "wfd_trigger_method"@ ==> r == applied(s, Some(trim(value)), ps, i + 1)
            &&& name != "wfd_video_formats"@ && name != "wfd_presentation_URL"@ && name
                != "wfd_trigger_method"@ ==> r == applied(s, trigger, ps, i + 1)
            &&& applied(s, trigger, ps, ps.len() as int) == (Applied { state: s, trigger, ok: true })
        }),
{
    reveal_strlit("wfd_video_formats");
    reveal_strlit("wfd_presentation_URL");
    reveal_strlit("wfd_trigger_method");
    assert("wfd_video_formats"@.len() == 17);
    assert("wfd_presentation_URL"@.len() == 20);
    assert("wfd_trigger_method"@.len() == 18);
}

/// The format that is accepted has the sixth CEA bit and no other bit of any table:
/// 1280 by 720 at 30.
pub proof fn law_the_format_that_is_accepted(value: Seq<char>)
    ensures
        ({
            let f = words(value);
            let bit5 = f.len() >= 7 && parse_hex(f[4], 0xffff_ffff) == Some(32nat) && parse_hex(
                f[5],
                0xffff_ffff,
            ) == Some(0nat) && parse_hex(f[6], 0xffff_ffff) == Some(0nat);
            &&& bit5 ==> chosen_mode(value) == Some(
                VideoMode { width: 1280, height: 720, fps: 30 },
            )
            &&& !bit5 ==> chosen_mode(value) is None
        }),
{
}

/// The answer to `SETUP` has to name a session; playing is then asked for under it.
/// An answer that is no success ends the session, and any other success is only
/// heard.
pub proof fn law_what_answers_do(s: NegotiationState, m: MessageView, now: Instant)
    requires
        m.start is Response,
    ensures
        ({
            let good = m.start->status == 200;
            let (t, acts) = handled(s, m, now);
            let awaited = s.state == NegState::Ready && s.peer_session is None;
            let session = m.header("session"@);
            &&& t.last_heard == Some(now)
            &&& !good ==> acts == seq![ActionView::Teardown("source refused a request"@)] && t.state
                == s.state
            &&& good && !awaited ==> acts.len() == 0 && t == (NegotiationState {
                last_heard: Some(now),
                ..s
            })
            &&& good && awaited && session is None ==> acts == seq![
                ActionView::Teardown("SETUP response carried no Session"@),
            ]
            &&& good && awaited && session is Some ==> {
                let name = trim(pieces(session->0, ';')[0]);
                &&& acts.len() == 2
                &&& asks(acts[0], "PLAY"@, s.uri(), s.next_cseq, ""@)
                &&& acts[0]->Send_0.headers.last() == ("Session"@, name)
                &&& acts[1] == ActionView::Play
                &&& t.state == NegState::Playing
                &&& t.peer_session == Some(name)
                &&& t.next_cseq == after(s.next_cseq)
            }
        }),
{
}

/// Requests go to the address that the source named, or to its own where it named
/// none, and carry the session once there is one.
pub proof fn law_where_requests_go(s: NegotiationState, method: Seq<char>, body: Seq<char>)
    ensures
        s.presentation_url.len() > 0 ==> s.uri() == s.presentation_url,
        s.presentation_url.len() == 0 ==> s.uri() == "rtsp://localhost/wfd1.0/"@ + s.session_id,
        asks(ActionView::Send(s.ask(method, body)), method, s.uri(), s.next_cseq, body),
        s.peer_session is None ==> s.ask(method, body).headers.len() == 1,
        s.peer_session matches Some(name) ==> s.ask(method, body).headers.len() == 2 && s.ask(
            method,
            body,
        ).headers[1] == ("Session"@, name),
{
}

/// What time does: more than ten seconds of silence end the session; otherwise a
/// keep-alive goes out once five have passed since the last one, or since the
/// source was heard where there was none. Before the first word nothing happens,
/// nor after the end.
pub proof fn law_what_time_does(s: NegotiationState, now: Instant)
    ensures
        ({
            let (t, acts) = ticked(s, now);
            let over = s.state == NegState::Done;
            let gone = s.last_heard matches Some(h) && now.nanos > h.nanos + 10_000_000_000;
            let due = if s.last_keepalive is Some {
                now.nanos >= s.last_keepalive->0.nanos + 5_000_000_000
            } else {
                s.last_heard matches Some(h) && now.nanos >= h.nanos + 5_000_000_000
            };
            &&& over ==> t == s && acts.len() == 0
            &&& !over && gone ==> t.state == NegState::Done && acts == seq![
                ActionView::Teardown("no keep-alive reply for 10 s"@),
            ]
            &&& !over && !gone && due ==> t.last_keepalive == Some(now) && t.state == s.state
                && t.next_cseq == after(s.next_cseq) && acts.len() == 1 && asks(
                acts[0],
                "GET_PARAMETER"@,
                s.uri(),
                s.next_cseq,
                ""@,
            )
            &&& !over && !gone && !due ==> t == s && acts.len() == 0
        }),
{
}

/// A keyframe is asked for at once, unless one was within the last half second.
pub proof fn law_when_keyframes_are_asked_for(s: NegotiationState, now: Instant)
    ensures
        ({
            let (t, acts) = idr_asked(s, now);
            let soon = s.last_idr matches Some(at) && now.nanos < at.nanos + 500_000_000;
            &&& soon ==> t == s && acts.len() == 0
            &&& !soon ==> t.last_idr == Some(now) && t.next_cseq == after(s.next_cseq) && t.state
                == s.state && acts.len() == 1 && asks(
                acts[0],
                "SET_PARAMETER"@,
                s.uri(),
                s.next_cseq,
                "wfd_idr_request\r\n"@,
            )
        }),
{
}

/// A ceiling is asked for while the session plays, and at no other time.
pub proof fn law_when_ceilings_are_asked_for(s: NegotiationState, kbps: u32)
    ensures
        ({
            let (t, acts) = bitrate_asked(s, kbps);
            let playing = s.state == NegState::Playing;
            &&& !playing ==> t == s && acts.len() == 0
            &&& playing ==> t.next_cseq == after(s.next_cseq) && t.state == s.state && acts.len()
                == 1 && asks(
                acts[0],
                "SET_PARAMETER"@,
                s.uri(),
                s.next_cseq,
                "microsoft_max_bitrate: "@ + dec(kbps as nat) + "\r\n"@,
            )
        }),
{
}

/// A header is found by its name in whatever case; of several the first counts.
pub proof fn law_which_header_is_found(hs: Seq<Pair>, name: Seq<char>, k: int)
    ensures
        0 <= k < hs.len() && lowered(hs[k].0) == lowered(name) && (forall|i: int|
            0 <= i < k ==> lowered((#[trigger] hs[i]).0) != lowered(name)) ==> header_from(
            hs,
            name,
            0,
        ) == Some(hs[k].1),
        (forall|i: int| 0 <= i < hs.len() ==> lowered((#[trigger] hs[i]).0) != lowered(name))
            ==> header_from(hs, name, 0) is None,
{
    lemma_header(hs, name, k, 0);
}

proof fn lemma_header(hs: Seq<Pair>, name: Seq<char>, k: int, j: int)
    requires
        0 <= j,
    ensures
        j <= k < hs.len() && lowered(hs[k].0) == lowered(name) && (forall|i: int|
            0 <= i < k ==> lowered((#[trigger] hs[i]).0) != lowered(name)) ==> header_from(
            hs,
            name,
            j,
        ) == Some(hs[k].1),
        (forall|i: int| 0 <= i < hs.len() ==> lowered((#[trigger] hs[i]).0) != lowered(name))
            ==> header_from(hs, name, j) is None,
    decreases hs.len() - j,
{
    if j < hs.len() {
        lemma_header(hs, name, k, j + 1);
    }
}

} // verus!
