//! What a session makes of each action and of each datagram.
use vstd::prelude::*;
use crate::miracast::rtp::{parsed, pushed};
use crate::miracast::rtsp::{idr_asked, message_text, ActionView};
use crate::miracast::session::{
    acted, acted_from, fed_from, keyframe_wished, losses, media_received, unit_events, SessionState,
    SinkEventView,
};
use crate::miracast::ts::{feed, DemuxState, UnitView};
use crate::miracast::rtp::PacketView;
use crate::time::Instant;

verus! {

/// A message is sent as its text; playing starts with the mode that was chosen; an
/// end stops it and is told with its reason.
pub proof fn law_what_actions_come_to(s: SessionState, a: ActionView)
    ensures
        ({
            let (t, out) = acted(s, a);
            &&& a matches ActionView::Send(m) ==> t == s && out == seq![
                SinkEventView::SendRtsp(message_text(m)),
            ]
            &&& a == ActionView::Play ==> t == (SessionState { playing: true, ..s })
            &&& a == ActionView::Play && s.negotiation.chosen is Some ==> out == seq![
                SinkEventView::Started(s.negotiation.chosen->0),
            ]
            &&& a == ActionView::Play && s.negotiation.chosen is None ==> out.len() == 0
            &&& a matches ActionView::Teardown(why) ==> t == (SessionState { playing: false, ..s })
                && out == seq![SinkEventView::Ended(why)]
            &&& a is Bitrate || a is Keyframe ==> t == s && out.len() == 0
        }),
{
}

/// Actions are taken one after the other.
pub proof fn law_actions_are_taken_in_turn(s: SessionState, acts: Seq<ActionView>, i: int)
    requires
        0 <= i < acts.len(),
    ensures
        ({
            let (t, out) = acted(s, acts[i]);
            let (u, more) = acted_from(t, acts, i + 1);
            acted_from(s, acts, i) == (u, out + more)
        }),
        acted_from(s, acts, acts.len() as int) == (s, Seq::<SinkEventView>::empty()),
{
}

/// A datagram counts while the session plays, if it is RTP of type 33: the packets
/// that it releases are taken apart in their order. If that shows more losses than
/// were known, a keyframe is asked for once and the number is remembered.
pub proof fn law_what_a_datagram_does(s: SessionState, datagram: Seq<u8>, now: Instant)
    ensures
        ({
            let p = parsed(datagram);
            let counts = s.playing && (p matches Some(p) && p.payload_type == 33);
            let (r, released) = pushed(s.reorder, p->0);
            let (d, units) = fed_from(s.demux, released, 0);
            let lost = (r.lost + d.continuity_errors) % 0x1_0000_0000_0000_0000;
            let (t, out) = media_received(s, datagram, now);
            let wish = idr_asked(s.negotiation, now);
            &&& !counts ==> t == s && out.len() == 0
            &&& counts ==> t.reorder == r && t.demux == d && t.playing
            &&& counts && lost <= s.lost_at_last_check ==> out == units && t.negotiation
                == s.negotiation && t.lost_at_last_check == s.lost_at_last_check
            &&& counts && lost > s.lost_at_last_check ==> t.lost_at_last_check == lost
                && t.negotiation == wish.0 && out == units + acted_from(s, wish.1, 0).1
        }),
{
    let p = parsed(datagram);
    if let Some(p) = p {
        if s.playing && p.payload_type == 33 {
            let (r, released) = pushed(s.reorder, p);
            let (d, units) = fed_from(s.demux, released, 0);
            let t = SessionState { reorder: r, demux: d, ..s };
            let wish = idr_asked(s.negotiation, now);
            if losses(t) > t.lost_at_last_check {
                let u = SessionState { lost_at_last_check: losses(t), ..t };
                let v = SessionState { negotiation: wish.0, ..u };
                lemma_sends(v, s, wish.1, 0);
                lemma_wish_is_a_request(s, now);
            }
        }
    }
}

proof fn lemma_wish_is_a_request(s: SessionState, now: Instant)
    ensures
        forall|i: int|
            0 <= i < idr_asked(s.negotiation, now).1.len() ==> (#[trigger] idr_asked(
                s.negotiation,
                now,
            ).1[i]) is Send,
{
}

/// Requests that are sent change nothing of a session and do not depend on it.
proof fn lemma_sends(a: SessionState, b: SessionState, acts: Seq<ActionView>, i: int)
    requires
        0 <= i,
        forall|k: int| 0 <= k < acts.len() ==> (#[trigger] acts[k]) is Send,
    ensures
        acted_from(a, acts, i).0 == a,
        acted_from(a, acts, i).1 == acted_from(b, acts, i).1,
    decreases acts.len() - i,
{
    if i < acts.len() {
        lemma_sends(a, b, acts, i + 1);
    }
}

/// Packets are taken apart one after the other, and their units come out in that
/// order, video as video and audio as audio.
pub proof fn law_packets_are_taken_apart_in_turn(d: DemuxState, ps: Seq<PacketView>, i: int)
    requires
        0 <= i < ps.len(),
    ensures
        ({
            let (d1, units) = feed(d, ps[i].payload);
            let (d2, more) = fed_from(d1, ps, i + 1);
            &&& fed_from(d, ps, i) == (d2, unit_events(units) + more)
            &&& unit_events(units).len() == units.len()
            &&& forall|k: int|
                0 <= k < units.len() ==> {
                    &&& units[k] matches UnitView::Video { data, pts_us } ==> #[trigger] unit_events(
                        units,
                    )[k] == (SinkEventView::Video { data, pts_us })
                    &&& units[k] matches UnitView::Audio { data, pts_us } ==> unit_events(units)[k]
                        == (SinkEventView::Audio { data, pts_us })
                }
        }),
{
}

} // verus!
