//! What the source does with each message of the exchange, and when it speaks
//! unasked.
use vstd::prelude::*;
use crate::miracast::rtsp::{ActionView, MessageView, StartLineView};
use crate::miracast::rtsp_exchange::{after, asks, replies};
use crate::miracast::source::caps::{
    bit_from, caps_of, proposals, selected, SinkCapsView,
};
use crate::miracast::source::session::{
    configured, handled, in_mbps, lower_ceiling, question_text, requested, selection_text, started,
    ticked, wishes, SourceSessionState, SourceState, PRESENTATION_URL,
};
use crate::miracast::wfd::max_bitrate_from;
use crate::number::dec;
use crate::proto::Mode;
use crate::text::{has_part, lines, trim};
use crate::time::Instant;

verus! {

/// The address that requests of ours go to.
pub open spec fn address() -> Seq<char> {
    "rtsp://localhost/wfd1.0/streamid=0"@
}

proof fn lemma_methods()
    ensures
        "OPTIONS"@ != "SETUP"@,
        "OPTIONS"@ != "PLAY"@,
        "OPTIONS"@ != "TEARDOWN"@,
        "OPTIONS"@ != "SET_PARAMETER"@,
        "SETUP"@ != "PLAY"@,
        "SETUP"@ != "TEARDOWN"@,
        "SETUP"@ != "SET_PARAMETER"@,
        "PLAY"@ != "TEARDOWN"@,
        "PLAY"@ != "SET_PARAMETER"@,
        "TEARDOWN"@ != "SET_PARAMETER"@,
{
    reveal_strlit("OPTIONS");
    reveal_strlit("SETUP");
    reveal_strlit("PLAY");
    reveal_strlit("TEARDOWN");
    reveal_strlit("SET_PARAMETER");
    assert("OPTIONS"@.len() == 7 && "SETUP"@.len() == 5 && "PLAY"@.len() == 4);
    assert("TEARDOWN"@.len() == 8 && "SET_PARAMETER"@.len() == 13);
}

/// A session starts with our `OPTIONS`, and then waits for capabilities.
pub proof fn law_how_a_session_starts(s: SourceSessionState)
    ensures
        ({
            let (t, acts) = started(s);
            &&& acts.len() == 1
            &&& asks(acts[0], "OPTIONS"@, "*"@, s.next_cseq, ""@)
            &&& acts[0]->Send_0.headers[1] == ("Require"@, "org.wfa.wfd1.0"@)
            &&& t.state == SourceState::AwaitingCaps
            &&& t.next_cseq == after(s.next_cseq)
        }),
{
}

/// What a display may ask: its `OPTIONS` is followed by our question once ours has
/// been answered; `SETUP` is told the session and the ports; `PLAY` starts the
/// media; `TEARDOWN` ends it; and what it sets is passed on. Everything is
/// acknowledged.
pub proof fn law_what_requests_do(s: SourceSessionState, m: MessageView, now: Instant)
    requires
        m.start is Request,
    ensures
        ({
            let method = m.start->method;
            let (t, acts) = handled(s, m, now);
            let port = if s.sink is Some {
                s.sink->0.rtp_port
            } else {
                5000
            };
            &&& t.last_heard == Some(now)
            &&& acts.len() >= 1 && replies(acts[0], 200, m, ""@)
            &&& method == "OPTIONS"@ && !s.asked_caps && s.m1_answered is Some ==> acts.len() == 2
                && asks(acts[1], "GET_PARAMETER"@, address(), s.next_cseq, question_text())
                && t.asked_caps && t.next_cseq == after(s.next_cseq) && t.state == s.state
            &&& method == "OPTIONS"@ && (s.asked_caps || s.m1_answered is None) ==> acts.len() == 1
                && t.asked_caps == s.asked_caps && t.state == s.state
            &&& method == "SETUP"@ ==> {
                let headers = acts[0]->Send_0.headers;
                &&& acts.len() == 1
                &&& headers[1] == ("Session"@, s.session_id)
                &&& headers[2] == (
                    "Transport"@,
                    "RTP/AVP/UDP;unicast;client_port="@ + dec(port as nat) + ";server_port="@ + dec(
                        s.rtp_port as nat,
                    ),
                )
                &&& t.state == SourceState::AwaitingSetup
            }
            &&& method == "PLAY"@ ==> acts.len() == 2 && acts[1] == ActionView::Play && t.state
                == SourceState::Playing
            &&& method == "TEARDOWN"@ ==> acts.len() == 2 && acts[1] == ActionView::Teardown(
                "session: the display ended the session"@,
            ) && t.state == SourceState::Done
            &&& method == "SET_PARAMETER"@ ==> acts == seq![acts[0]] + wishes(m.body) && t.state
                == s.state
            &&& method != "OPTIONS"@ && method != "SETUP"@ && method != "PLAY"@ && method
                != "TEARDOWN"@ && method != "SET_PARAMETER"@ ==> acts.len() == 1 && t.state
                == s.state
        }),
{
    lemma_methods();
}

/// What a display sets: a request for a keyframe and a ceiling are both passed on,
/// the keyframe first.
pub proof fn law_what_a_display_wishes(body: Seq<char>)
    ensures
        ({
            let key = has_part(body, "wfd_idr_request"@);
            let rate = max_bitrate_from(lines(body), 0);
            let w = wishes(body);
            &&& !key && rate is None ==> w.len() == 0
            &&& key && rate is None ==> w == seq![ActionView::Keyframe]
            &&& !key && rate is Some ==> w == seq![ActionView::Bitrate(rate->0 as u32)]
            &&& key && rate is Some ==> w == seq![
                ActionView::Keyframe,
                ActionView::Bitrate(rate->0 as u32),
            ]
        }),
{
    assert(seq![ActionView::Keyframe] + seq![] =~= seq![ActionView::Keyframe]);
}

/// What an answer of the display does: a refusal ends the session; the first
/// success is that to our `OPTIONS`; the first with a body, once we have asked, is
/// its capabilities; and any other is only heard.
pub proof fn law_what_answers_do(s: SourceSessionState, m: MessageView, now: Instant)
    requires
        m.start is Response,
    ensures
        ({
            let good = m.start->status == 200;
            let heard = SourceSessionState { last_heard: Some(now), ..s };
            let (t, acts) = handled(s, m, now);
            let told = s.asked_caps && s.sink is None && trim(m.body).len() > 0;
            &&& !good ==> t == heard && acts == seq![
                ActionView::Teardown("negotiation: the display refused a request"@),
            ]
            &&& good && !s.asked_caps ==> acts.len() == 0 && t == (SourceSessionState {
                m1_answered: Some(now),
                ..heard
            })
            &&& good && told ==> (t, acts) == configured(heard, m.body)
            &&& good && s.asked_caps && !told ==> t == heard && acts.len() == 0
        }),
{
}

/// Capabilities that can be read are answered with the first of our modes that the
/// display can show, within the lower of the two ceilings, by its bit; and with
/// the trigger for `SETUP` right behind. Anything else ends the session.
pub proof fn law_what_capabilities_do(s: SourceSessionState, body: Seq<char>)
    ensures
        ({
            let (t, acts) = configured(s, body);
            let sink = caps_of(body)->Ok_0;
            let theirs = sink.max_bitrate_kbps;
            let ceiling = lower_ceiling(s.ceiling_mbps, in_mbps(theirs));
            let sel = selected(sink, proposals(s.mode, ceiling), 0);
            let bit = bit_from(sel->0.mode, 0);
            &&& caps_of(body) is Err ==> t == s && acts == seq![
                ActionView::Teardown(
                    "negotiation: the display sent capabilities we could not read"@,
                ),
            ]
            &&& caps_of(body) is Ok && sel is None ==> t == s && acts == seq![
                ActionView::Teardown("negotiation: no video format in common"@),
            ]
            &&& caps_of(body) is Ok && sel is Some && bit is None ==> t == s && acts == seq![
                ActionView::Teardown("negotiation: chose a mode with no table entry"@),
            ]
            &&& caps_of(body) is Ok && sel is Some && bit is Some ==> {
                &&& acts.len() == 2
                &&& asks(
                    acts[0],
                    "SET_PARAMETER"@,
                    address(),
                    s.next_cseq,
                    selection_text(bit->0, s.rtp_port),
                )
                &&& asks(
                    acts[1],
                    "SET_PARAMETER"@,
                    address(),
                    after(s.next_cseq),
                    "wfd_trigger_method: SETUP\r\n"@,
                )
                &&& t.chosen == Some(sel->0.mode)
                &&& t.sink == Some(sink)
                &&& t.state == SourceState::Configuring
                &&& t.next_cseq == after(after(s.next_cseq))
            }
        }),
{
}

/// The lower of two ceilings counts, and one where there is no other; a ceiling in
/// kbit/s counts in whole Mbit/s.
pub proof fn law_the_lower_ceiling(a: Option<u16>, b: Option<u16>, kbps: u32)
    ensures
        ({
            let c = lower_ceiling(a, b);
            &&& c is None <==> a is None && b is None
            &&& c is Some ==> c == a || c == b
            &&& a matches Some(x) ==> c->0 <= x
            &&& b matches Some(y) ==> c->0 <= y
        }),
        in_mbps(None) is None,
        kbps < 65_536_000 ==> 1000 * in_mbps(Some(kbps))->0 <= kbps < 1000 * (in_mbps(Some(kbps))->0
            + 1),
        in_mbps(Some(kbps)) is Some,
{
}

/// What time does: two seconds after our `OPTIONS` was answered we ask for
/// capabilities unasked. While the session plays, more than ten seconds of silence
/// end it, and a keep-alive goes out every five.
pub proof fn law_what_time_does(s: SourceSessionState, now: Instant)
    ensures
        ({
            let (t, acts) = ticked(s, now);
            let overdue = !s.asked_caps && (s.m1_answered matches Some(at) && now.nanos >= at.nanos
                + 2_000_000_000);
            let playing = !overdue && s.state == SourceState::Playing;
            let gone = s.last_heard matches Some(h) && now.nanos > h.nanos + 10_000_000_000;
            let early = s.last_keepalive matches Some(k) && now.nanos < k.nanos + 5_000_000_000;
            &&& overdue ==> acts.len() == 1 && asks(
                acts[0],
                "GET_PARAMETER"@,
                address(),
                s.next_cseq,
                question_text(),
            ) && t.asked_caps && t.next_cseq == after(s.next_cseq) && t.state == s.state
            &&& !overdue && !playing ==> t == s && acts.len() == 0
            &&& playing && gone ==> t.state == SourceState::Done && acts == seq![
                ActionView::Teardown("session: the display stopped answering"@),
            ]
            &&& playing && !gone && early ==> t == s && acts.len() == 0
            &&& playing && !gone && !early ==> t.last_keepalive == Some(now) && t.state == s.state
                && t.next_cseq == after(s.next_cseq) && acts.len() == 1 && asks(
                acts[0],
                "GET_PARAMETER"@,
                address(),
                s.next_cseq,
                ""@,
            )
        }),
{
}

} // verus!
