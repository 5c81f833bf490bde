//! One sink session: RTSP negotiation, RTP reception, MPEG-TS demux, and the
//! recovery rules, expressed as bytes in and events out. No sockets here, so
//! the whole media path can be replayed from a recording.
use vstd::prelude::*;
use vstd::wrapping::u64_specs::wrapping_add;
use crate::miracast::rtp;
use crate::miracast::rtp::{packets, pushed, Packet, PacketView, Reorder, ReorderState};
use crate::miracast::rtsp;
use crate::miracast::rtsp::{
    actions, handled, idr_asked, message_text, Action, ActionView, Negotiation, NegotiationState,
    Parsed, VideoMode,
};
use crate::miracast::rtsp_laws::law_a_message_takes_bytes;
use crate::miracast::ts::{feed, step, units, Demux, DemuxState, Unit, UnitView, PACKET_LEN};
use crate::miracast::wfd::Capabilities;
use crate::time::{Clock, Instant};
use crate::wire::{copy_bytes, part, push_bytes};

verus! {

/// RTP payload type for MPEG-TS, which is what Wi-Fi Display carries.
pub const PT_MP2T: u8 = 33;

/// Packets held while waiting for a late one.
pub const REORDER_WINDOW: usize = 32;

#[derive(Debug)]
pub enum SinkEvent {
    /// Formatted RTSP text the caller must write to the control socket.
    SendRtsp(String),
    Video { data: Vec<u8>, pts_us: Option<u64> },
    Audio { data: Vec<u8>, pts_us: Option<u64> },
    Started(VideoMode),
    Ended(&'static str),
}

pub struct Session {
    negotiation: Negotiation,
    rtsp_buf: Vec<u8>,
    reorder: Reorder,
    demux: Demux,
    playing: bool,
    /// Loss seen since the last keyframe request, so a gap can trigger one.
    lost_at_last_check: u64,
}

// ---- the model ----

#[verifier::ext_equal]
pub enum SinkEventView {
    SendRtsp(Seq<char>),
    Video { data: Seq<u8>, pts_us: Option<u64> },
    Audio { data: Seq<u8>, pts_us: Option<u64> },
    Started(VideoMode),
    Ended(Seq<char>),
}

#[verifier::ext_equal]
pub struct SessionState {
    pub negotiation: NegotiationState,
    pub rtsp_buf: Seq<u8>,
    pub reorder: ReorderState,
    pub demux: DemuxState,
    pub playing: bool,
    pub lost_at_last_check: u64,
}

impl View for SinkEvent {
    type V = SinkEventView;

    open spec fn view(&self) -> SinkEventView {
        match self {
            SinkEvent::SendRtsp(s) => SinkEventView::SendRtsp(s@),
            SinkEvent::Video { data, pts_us } => SinkEventView::Video {
                data: data@,
                pts_us: *pts_us,
            },
            SinkEvent::Audio { data, pts_us } => SinkEventView::Audio {
                data: data@,
                pts_us: *pts_us,
            },
            SinkEvent::Started(m) => SinkEventView::Started(*m),
            SinkEvent::Ended(r) => SinkEventView::Ended(r@),
        }
    }
}

/// What a list of events says.
pub open spec fn events(v: Seq<SinkEvent>) -> Seq<SinkEventView> {
    Seq::new(v.len(), |i: int| v[i]@)
}

impl View for Session {
    type V = SessionState;

    closed spec fn view(&self) -> SessionState {
        SessionState {
            negotiation: self.negotiation@,
            rtsp_buf: self.rtsp_buf@,
            reorder: self.reorder@,
            demux: self.demux@,
            playing: self.playing,
            lost_at_last_check: self.lost_at_last_check,
        }
    }
}

impl SessionState {
    pub open spec fn init(caps: Capabilities, session_id: Seq<char>) -> SessionState {
        SessionState {
            negotiation: NegotiationState::init(caps, session_id),
            rtsp_buf: Seq::empty(),
            reorder: ReorderState {
                window: REORDER_WINDOW as nat,
                held: Seq::empty(),
                next: None,
                lost: 0,
            },
            demux: DemuxState::init(),
            playing: false,
            lost_at_last_check: 0,
        }
    }
}

/// What one action comes to.
pub open spec fn acted(s: SessionState, a: ActionView) -> (SessionState, Seq<SinkEventView>) {
    match a {
        ActionView::Send(m) => (s, seq![SinkEventView::SendRtsp(message_text(m))]),
        ActionView::Play => (
            SessionState { playing: true, ..s },
            match s.negotiation.chosen {
                Some(mode) => seq![SinkEventView::Started(mode)],
                None => Seq::empty(),
            },
        ),
        ActionView::Teardown(reason) => (
            SessionState { playing: false, ..s },
            seq![SinkEventView::Ended(reason)],
        ),
        // Wishes of a display, which a sink is never asked.
        ActionView::Bitrate(_) => (s, Seq::empty()),
        ActionView::Keyframe => (s, Seq::empty()),
    }
}

/// What the actions from `i` on come to.
pub open spec fn acted_from(s: SessionState, acts: Seq<ActionView>, i: int) -> (
    SessionState,
    Seq<SinkEventView>,
)
    decreases acts.len() - i,
{
    if i >= acts.len() {
        (s, Seq::empty())
    } else {
        let (t, out) = acted(s, acts[i]);
        let (u, more) = acted_from(t, acts, i + 1);
        (u, out + more)
    }
}

/// What one control message comes to.
pub open spec fn message_handled(s: SessionState, m: rtsp::MessageView, now: Instant) -> (
    SessionState,
    Seq<SinkEventView>,
) {
    let (n, acts) = handled(s.negotiation, m, now);
    acted_from(SessionState { negotiation: n, ..s }, acts, 0)
}

/// What the control bytes in the buffer come to: every whole message is
/// handled; what is left waits for more; something malformed ends the session.
pub open spec fn drained(s: SessionState, now: Instant) -> (SessionState, Seq<SinkEventView>)
    decreases s.rtsp_buf.len(),
{
    match rtsp::parsed(s.rtsp_buf) {
        Parsed::More => (s, Seq::empty()),
        Parsed::Bad(_) => (
            SessionState { rtsp_buf: Seq::empty(), ..s },
            seq![SinkEventView::Ended("malformed RTSP"@)],
        ),
        Parsed::Done(m, n) => {
            let (t, out) = message_handled(
                SessionState { rtsp_buf: s.rtsp_buf.skip(n), ..s },
                m,
                now,
            );
            proof {
                law_a_message_takes_bytes(s.rtsp_buf);
                lemma_acting_keeps_the_rest(
                    SessionState {
                        negotiation: handled(s.negotiation, m, now).0,
                        rtsp_buf: s.rtsp_buf.skip(n),
                        ..s
                    },
                    handled(s.negotiation, m, now).1,
                    0,
                );
            }
            let (u, more) = drained(t, now);
            (u, out + more)
        },
    }
}

/// What bytes from the control connection come to.
pub open spec fn received(s: SessionState, bytes: Seq<u8>, now: Instant) -> (
    SessionState,
    Seq<SinkEventView>,
) {
    drained(SessionState { rtsp_buf: s.rtsp_buf + bytes, ..s }, now)
}

/// The events that units of media are.
pub open spec fn unit_event(u: UnitView) -> SinkEventView {
    match u {
        UnitView::Video { data, pts_us } => SinkEventView::Video { data, pts_us },
        UnitView::Audio { data, pts_us } => SinkEventView::Audio { data, pts_us },
    }
}

pub open spec fn unit_events(us: Seq<UnitView>) -> Seq<SinkEventView> {
    Seq::new(us.len(), |i: int| unit_event(us[i]))
}

/// What the payloads of the packets from `i` on come to.
pub open spec fn fed_from(d: DemuxState, ps: Seq<PacketView>, i: int) -> (
    DemuxState,
    Seq<SinkEventView>,
)
    decreases ps.len() - i,
{
    if i >= ps.len() {
        (d, Seq::empty())
    } else {
        let (d1, out) = feed(d, ps[i].payload);
        let (d2, more) = fed_from(d1, ps, i + 1);
        (d2, unit_events(out) + more)
    }
}

/// The packets and transport packets known to be missing.
pub open spec fn losses(s: SessionState) -> u64 {
    wrapping_add(s.reorder.lost, s.demux.continuity_errors)
}

/// A wish for a keyframe.
pub open spec fn keyframe_wished(s: SessionState, now: Instant) -> (
    SessionState,
    Seq<SinkEventView>,
) {
    let (n, acts) = idr_asked(s.negotiation, now);
    acted_from(SessionState { negotiation: n, ..s }, acts, 0)
}

/// What one datagram from the media socket comes to. Anything that is not
/// MPEG-TS, or comes before the stream plays, is ignored. New losses damaged a
/// frame, so a keyframe is asked for.
pub open spec fn media_received(s: SessionState, datagram: Seq<u8>, now: Instant) -> (
    SessionState,
    Seq<SinkEventView>,
) {
    match rtp::parsed(datagram) {
        Some(p) if s.playing && p.payload_type == PT_MP2T => {
            let (r, ps) = pushed(s.reorder, p);
            let (d, out) = fed_from(s.demux, ps, 0);
            let t = SessionState { reorder: r, demux: d, ..s };
            if losses(t) > t.lost_at_last_check {
                let (u, more) = keyframe_wished(
                    SessionState { lost_at_last_check: losses(t), ..t },
                    now,
                );
                (u, out + more)
            } else {
                (t, out)
            }
        },
        _ => (s, Seq::empty()),
    }
}

/// Acting leaves the control buffer and the media path alone.
pub proof fn lemma_acting_keeps_the_rest(s: SessionState, acts: Seq<ActionView>, i: int)
    ensures
        acted_from(s, acts, i).0 == (SessionState {
            playing: acted_from(s, acts, i).0.playing,
            ..s
        }),
    decreases acts.len() - i,
{
    if i < acts.len() {
        lemma_acting_keeps_the_rest(acted(s, acts[i]).0, acts, i + 1);
    }
}

// ---- the code ----

impl Session {
    pub fn new(caps: Capabilities, session_id: String) -> (s: Self)
        ensures
            s@ == SessionState::init(caps, session_id@),
    {
        let ghost id = session_id@;
        let s = Session {
            negotiation: Negotiation::new(caps, session_id),
            rtsp_buf: Vec::new(),
            reorder: Reorder::new(REORDER_WINDOW),
            demux: Demux::new(),
            playing: false,
            lost_at_last_check: 0,
        };
        assert(s@ =~= SessionState::init(caps, id));
        s
    }

    /// Feeds bytes read from the RTSP socket; returns what to send back.
    pub fn on_rtsp_bytes(&mut self, bytes: &[u8], clock: &Clock) -> (r: Vec<SinkEvent>)
        ensures
            exists|now: Instant|
                (final(self)@, events(r@)) == #[trigger] received(old(self)@, bytes@, now),
    {
        let now = clock.now();
        let r = self.on_rtsp_bytes_at(bytes, now);
        assert((self@, events(r@)) == received(old(self)@, bytes@, now));
        r
    }

    /// The time is handed in, so the keep-alive and IDR rules do not depend on
    /// a clock.
    pub fn on_rtsp_bytes_at(&mut self, bytes: &[u8], now: Instant) -> (out: Vec<SinkEvent>)
        ensures
            (final(self)@, events(out@)) == received(old(self)@, bytes@, now),
    {
        push_bytes(&mut self.rtsp_buf, bytes);
        let mut out: Vec<SinkEvent> = Vec::new();
        let ghost start = self@;
        assert(received(old(self)@, bytes@, now) == drained(start, now));
        assert(events(out@) + drained(start, now).1 =~= drained(start, now).1);
        loop
            invariant
                received(old(self)@, bytes@, now) == drained(start, now),
                drained(self@, now).0 == drained(start, now).0,
                events(out@) + drained(self@, now).1 == drained(start, now).1,
            decreases self.rtsp_buf@.len(),
        {
            let ghost before = self@;
            let ghost given = events(out@);
            match rtsp::parse(&self.rtsp_buf) {
                Ok(Some((msg, used))) => {
                    proof {
                        law_a_message_takes_bytes(self@.rtsp_buf);
                    }
                    let end: usize = self.rtsp_buf.len();
                    let rest = copy_bytes(part(&self.rtsp_buf, used, end));
                    self.rtsp_buf = rest;
                    assert(self@.rtsp_buf =~= before.rtsp_buf.skip(used as int));
                    let acts = self.negotiation.on_message_at(&msg, now);
                    proof {
                        lemma_acting_keeps_the_rest(self@, actions(acts@), 0);
                    }
                    self.apply(acts, &mut out);
                    assert(events(out@) + drained(self@, now).1 =~= given + drained(
                        before,
                        now,
                    ).1);
                },
                Ok(None) => {
                    assert(events(out@) =~= drained(start, now).1);
                    return out;
                },
                Err(_) => {
                    self.rtsp_buf.clear();
                    out.push(SinkEvent::Ended("malformed RTSP"));
                    assert(self@ =~= drained(before, now).0);
                    assert(events(out@) =~= given + drained(before, now).1);
                    return out;
                },
            }
        }
    }

    /// Feeds one UDP datagram from the RTP socket.
    pub fn on_rtp_datagram(&mut self, datagram: &[u8], clock: &Clock) -> (r: Vec<SinkEvent>)
        ensures
            exists|now: Instant|
                (final(self)@, events(r@)) == #[trigger] media_received(
                    old(self)@,
                    datagram@,
                    now,
                ),
    {
        let now = clock.now();
        let r = self.on_rtp_datagram_at(datagram, now);
        assert((self@, events(r@)) == media_received(old(self)@, datagram@, now));
        r
    }

    pub fn on_rtp_datagram_at(&mut self, datagram: &[u8], now: Instant) -> (out: Vec<SinkEvent>)
        ensures
            (final(self)@, events(out@)) == media_received(old(self)@, datagram@, now),
    {
        let mut out: Vec<SinkEvent> = Vec::new();
        assert(events(out@) =~= Seq::empty());
        if !self.playing {
            return out;
        }
        let packet = match rtp::parse(datagram) {
            Some(p) => p,
            None => {
                return out;
            },
        };
        if packet.payload_type != PT_MP2T {
            return out;
        }
        let ghost p = packet@;
        let ready = self.reorder.push(packet);
        let ghost ps = packets(ready@);
        let ghost d0 = old(self)@.demux;
        let mut i: usize = 0;
        assert(events(out@) + fed_from(d0, ps, 0).1 =~= fed_from(d0, ps, 0).1);
        while i < ready.len()
            invariant
                i <= ready@.len(),
                ps == packets(ready@),
                self@ == (SessionState {
                    reorder: self@.reorder,
                    demux: self@.demux,
                    ..old(self)@
                }),
                self@.reorder == pushed(old(self)@.reorder, p).0,
                fed_from(self@.demux, ps, i as int).0 == fed_from(d0, ps, 0).0,
                events(out@) + fed_from(self@.demux, ps, i as int).1 == fed_from(d0, ps, 0).1,
            decreases ready@.len() - i,
        {
            let ghost before = self@.demux;
            let ghost given = events(out@);
            assert(ps[i as int].payload == ready@[i as int].payload@);
            self.demultiplex(&ready[i].payload, &mut out);
            assert(events(out@) + fed_from(self@.demux, ps, i + 1).1 =~= given + fed_from(
                before,
                ps,
                i as int,
            ).1);
            i = i + 1;
        }
        assert(events(out@) =~= fed_from(d0, ps, 0).1);
        // A lost packet or a continuity break damaged a frame: ask for an IDR
        // rather than waiting for the source's next scheduled keyframe.
        let lost: u64 = self.reorder.lost().wrapping_add(self.demux.stats().continuity_errors);
        if lost > self.lost_at_last_check {
            self.lost_at_last_check = lost;
            let acts = self.negotiation.request_idr(now);
            self.apply(acts, &mut out);
        }
        out
    }

    /// Feeds the whole transport packets of a payload to the demultiplexer.
    fn demultiplex(&mut self, payload: &[u8], out: &mut Vec<SinkEvent>)
        ensures
            final(self)@ == (SessionState { demux: feed(old(self)@.demux, payload@).0, ..old(self)@
            }),
            events(final(out)@) == events(old(out)@) + unit_events(
                feed(old(self)@.demux, payload@).1,
            ),
    {
        let total: usize = payload.len();
        let ghost d0 = self@.demux;
        let ghost all = feed(d0, payload@);
        let mut i: usize = 0;
        assert(payload@.skip(0) =~= payload@);
        assert(events(out@) + unit_events(all.1) =~= events(old(out)@) + unit_events(all.1));
        while total - i >= PACKET_LEN
            invariant
                total == payload@.len(),
                i <= total,
                all == feed(d0, payload@),
                self@ == (SessionState { demux: self@.demux, ..old(self)@ }),
                feed(self@.demux, payload@.skip(i as int)).0 == all.0,
                events(out@) + unit_events(feed(self@.demux, payload@.skip(i as int)).1) == events(
                    old(out)@,
                ) + unit_events(all.1),
            decreases total - i,
        {
            let ghost before = self@.demux;
            let ghost given = events(out@);
            let ghost tail = payload@.skip(i as int);
            let chunk = part(payload, i, i + PACKET_LEN);
            assert(chunk@ =~= tail.take(PACKET_LEN as int));
            let made = self.demux.push(chunk);
            let ghost us = units(made@);
            push_units(out, made);
            assert(tail.skip(PACKET_LEN as int) =~= payload@.skip(i + PACKET_LEN));
            assert(events(out@) + unit_events(
                feed(self@.demux, payload@.skip(i + PACKET_LEN)).1,
            ) =~= given + unit_events(feed(before, tail).1));
            i = i + PACKET_LEN;
        }
        assert(events(out@) =~= events(old(out)@) + unit_events(all.1));
    }

    /// Time-driven work: keep-alives and the silence timeout.
    pub fn tick(&mut self, now: Instant) -> (out: Vec<SinkEvent>)
        ensures
            ({
                let (n, acts) = rtsp::ticked(old(self)@.negotiation, now);
                (final(self)@, events(out@)) == acted_from(
                    SessionState { negotiation: n, ..old(self)@ },
                    acts,
                    0,
                )
            }),
    {
        let acts = self.negotiation.tick(now);
        let mut out: Vec<SinkEvent> = Vec::new();
        self.apply(acts, &mut out);
        assert(events(out@) =~= acted_from(
            SessionState {
                negotiation: rtsp::ticked(old(self)@.negotiation, now).0,
                ..old(self)@
            },
            rtsp::ticked(old(self)@.negotiation, now).1,
            0,
        ).1);
        out
    }

    /// The decoder lost its reference; ask the source for a keyframe.
    pub fn note_decode_error(&mut self, now: Instant) -> (out: Vec<SinkEvent>)
        ensures
            (final(self)@, events(out@)) == keyframe_wished(old(self)@, now),
    {
        let acts = self.negotiation.request_idr(now);
        let mut out: Vec<SinkEvent> = Vec::new();
        self.apply(acts, &mut out);
        assert(events(out@) =~= keyframe_wished(old(self)@, now).1);
        out
    }

    fn apply(&mut self, acts: Vec<Action>, out: &mut Vec<SinkEvent>)
        ensures
            final(self)@ == acted_from(old(self)@, actions(acts@), 0).0,
            events(final(out)@) == events(old(out)@) + acted_from(
                old(self)@,
                actions(acts@),
                0,
            ).1,
    {
        let ghost s0 = self@;
        let ghost all = acted_from(s0, actions(acts@), 0);
        let ghost views = actions(acts@);
        let mut i: usize = 0;
        while i < acts.len()
            invariant
                i <= acts@.len(),
                views == actions(acts@),
                acted_from(self@, views, i as int).0 == all.0,
                events(out@) + acted_from(self@, views, i as int).1 == events(old(out)@) + all.1,
            decreases acts@.len() - i,
        {
            let ghost before = self@;
            let ghost given = events(out@);
            assert(views[i as int] == acts@[i as int]@);
            match &acts[i] {
                Action::Send(m) => {
                    out.push(SinkEvent::SendRtsp(m.format()));
                },
                Action::Play => {
                    self.playing = true;
                    if let Some(mode) = self.negotiation.chosen_video() {
                        out.push(SinkEvent::Started(mode));
                    }
                },
                Action::Teardown(reason) => {
                    self.playing = false;
                    out.push(SinkEvent::Ended(reason));
                },
                Action::Bitrate(_) => {},
                Action::Keyframe => {},
            }
            assert(events(out@) =~= given + acted(before, views[i as int]).1);
            assert(self@ =~= acted(before, views[i as int]).0);
            assert(events(out@) + acted_from(self@, views, i + 1).1 =~= given + acted_from(
                before,
                views,
                i as int,
            ).1);
            i = i + 1;
        }
        assert(events(out@) =~= events(old(out)@) + all.1);
    }
}

/// Hands units on as events.
fn push_units(out: &mut Vec<SinkEvent>, made: Vec<Unit>)
    ensures
        events(final(out)@) == events(old(out)@) + unit_events(units(made@)),
{
    let ghost us = units(made@);
    let ghost before = events(out@);
    let mut made = made;
    let ghost whole = before + unit_events(us);
    while made.len() > 0
        invariant
            events(out@) + unit_events(units(made@)) == whole,
        decreases made@.len(),
    {
        let ghost given = events(out@);
        let ghost left = units(made@);
        let u = made.remove(0);
        assert(u@ == left[0]);
        match u {
            Unit::Video { data, pts_us } => {
                out.push(SinkEvent::Video { data, pts_us });
            },
            Unit::Audio { data, pts_us } => {
                out.push(SinkEvent::Audio { data, pts_us });
            },
        }
        assert(events(out@) =~= given.push(unit_event(left[0])));
        assert(units(made@) =~= left.drop_first());
        assert(events(out@) + unit_events(units(made@)) =~= given + unit_events(left));
    }
    assert(events(out@) =~= whole);
}

} // verus!
