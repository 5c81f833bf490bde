//! The source half of the Wi-Fi Display negotiation.
//!
//! Messages in, actions out, exactly as `rtsp::Negotiation` does for the sink,
//! so the two can be driven against each other directly.
//!
//! The sequence, with who speaks:
//!
//! - **M1** we send `OPTIONS`; the display answers with its `Public` list.
//! - **M2** the display sends `OPTIONS`; we answer. Both ends act as client and
//!   server over one connection, which is why `rtsp` is bidirectional.
//! - **M3** we `GET_PARAMETER` its capabilities.
//! - **M4** we set the one mode we chose, and **M5** asks it to send `SETUP`.
//! - **M6/M7** it sends `SETUP` then `PLAY`; we answer both, and media starts.
use vstd::prelude::*;
use crate::miracast::rtsp::{
    actions, next_number, none, one, reply, request, request_view, response, response_view, two,
    Action, ActionView, Message, MessageView, StartLine, StartLineView, VideoMode,
};
use crate::miracast::source::caps::{
    bit_from, caps_of, choose_mode, mode_bit, our_modes, parse, proposals, selected, SinkCaps,
    SinkCapsView,
};
use crate::miracast::wfd::{
    law_bitrate_request_reads_back, max_bitrate_from, parse_max_bitrate_kbps,
};
use crate::number::{dec, hex_capitals, push_dec, push_hex_capitals, zero_fill};
use crate::proto::Mode;
use crate::text::{
    contains, has_part, is_str, lines, push_str, to_chars, to_string, trim, trim_of,
};
use crate::time::{since, Clock, Instant};

verus! {

/// Matches the sink's tolerance: two missed keep-alives, not one, so a single
/// loss on a busy link does not end a healthy session. Nanoseconds.
pub const KEEPALIVE_EVERY: u64 = 5_000_000_000;

pub const KEEPALIVE_TIMEOUT: u64 = 10_000_000_000;

/// How long to wait for the sink's M2 before asking for capabilities anyway,
/// in nanoseconds.
///
/// The sequence is M1 (our OPTIONS), then **M2 (the sink's OPTIONS)**, then M3.
/// A wireless display adapter ignored an M3 that arrived before it had sent its
/// M2, then waited for one that never came again, and closed the session after
/// half a minute.
///
/// The grace period exists so a sink that never sends M2 is not waited on for
/// ever: after it, M3 goes out regardless.
pub const M2_GRACE: u64 = 2_000_000_000;

pub const PUBLIC: &'static str =
    "org.wfa.wfd1.0, SETUP, TEARDOWN, PLAY, PAUSE, GET_PARAMETER, SET_PARAMETER";

pub const PRESENTATION_URL: &'static str = "rtsp://localhost/wfd1.0/streamid=0";

#[derive(Debug, Clone)]
pub struct SourceConfig {
    /// Which way to lean when a display offers several modes: a bigger picture
    /// or a faster one. The same toggle castr's own protocol uses.
    pub mode: Mode,
    /// The port we will send RTP from.
    pub rtp_port: u16,
    /// The session id we hand back when the display sets up the stream.
    pub session_id: String,
    /// What the display's information element said it can carry, if the radio
    /// read one. The capability body may name a ceiling too; the lower wins.
    pub ceiling_mbps: Option<u16>,
}

impl Default for SourceConfig {
    fn default() -> (c: Self)
        ensures
            c.mode == Mode::Quality,
            c.rtp_port == 5000,
            c.session_id@ == "1234567890"@,
            c.ceiling_mbps is None,
    {
        SourceConfig {
            mode: Mode::Quality,
            rtp_port: 5000,
            session_id: "1234567890".to_owned(),
            ceiling_mbps: None,
        }
    }
}

#[derive(Debug, Clone, Copy, PartialEq, Eq, Structural)]
pub enum SourceState {
    Init,
    AwaitingCaps,
    Configuring,
    AwaitingSetup,
    Playing,
    Done,
}

/// Why a session ended, in the vocabulary the whole project reports failures
/// in. Every one of these names a stage.
pub type Reason = &'static str;

pub struct SourceSession {
    cfg: SourceConfig,
    pub state: SourceState,
    next_cseq: u32,
    asked_caps: bool,
    /// When M1 was answered, so M2 can be waited for without waiting for ever.
    m1_answered: Option<Instant>,
    chosen: Option<VideoMode>,
    sink: Option<SinkCaps>,
    pub last_heard: Option<Instant>,
    last_keepalive: Option<Instant>,
}

#[verifier::ext_equal]
pub struct SourceSessionState {
    pub mode: Mode,
    pub rtp_port: u16,
    pub session_id: Seq<char>,
    pub ceiling_mbps: Option<u16>,
    pub state: SourceState,
    pub next_cseq: u32,
    pub asked_caps: bool,
    pub m1_answered: Option<Instant>,
    pub chosen: Option<VideoMode>,
    pub sink: Option<SinkCapsView>,
    pub last_heard: Option<Instant>,
    pub last_keepalive: Option<Instant>,
}

impl View for SourceSession {
    type V = SourceSessionState;

    closed spec fn view(&self) -> SourceSessionState {
        SourceSessionState {
            mode: self.cfg.mode,
            rtp_port: self.cfg.rtp_port,
            session_id: self.cfg.session_id@,
            ceiling_mbps: self.cfg.ceiling_mbps,
            state: self.state,
            next_cseq: self.next_cseq,
            asked_caps: self.asked_caps,
            m1_answered: self.m1_answered,
            chosen: self.chosen,
            sink: match self.sink {
                Some(c) => Some(c@),
                None => None,
            },
            last_heard: self.last_heard,
            last_keepalive: self.last_keepalive,
        }
    }
}

/// The lower of two ceilings, where there are any.
pub open spec fn lower_ceiling(a: Option<u16>, b: Option<u16>) -> Option<u16> {
    match (a, b) {
        (Some(x), Some(y)) => Some(
            if x <= y {
                x
            } else {
                y
            },
        ),
        (Some(x), None) => Some(x),
        (None, y) => y,
    }
}

/// A ceiling in kbit/s as whole Mbit/s, sixteen bits of it.
pub open spec fn in_mbps(kbps: Option<u32>) -> Option<u16> {
    match kbps {
        Some(k) => Some(((k / 1000) % 65536) as u16),
        None => None,
    }
}

/// The body that names the one mode that was chosen: exactly one bit in exactly
/// one table.
pub open spec fn selection_text(bit: u32, rtp_port: u16) -> Seq<char> {
    ("wfd_video_formats: 00 00 02 04 "@ + zero_fill(hex_capitals(bit as nat), 8)
        + " 00000000 00000000 00 0000 0000 00 none none\r\n"@)
        + "wfd_audio_codecs: LPCM 00000002 00\r\n"@ + ("wfd_presentation_URL: "@
        + PRESENTATION_URL@ + " none\r\n"@) + ("wfd_client_rtp_ports: RTP/AVP/UDP;unicast "@ + dec(
        rtp_port as nat,
    ) + " 0 mode=play\r\n"@)
}

/// The body that asks for capabilities.
pub open spec fn question_text() -> Seq<char> {
    "wfd_video_formats\r\nwfd_audio_codecs\r\nwfd_content_protection\r\nwfd_client_rtp_ports\r\n"@
}

impl SourceSessionState {
    pub open spec fn init(
        mode: Mode,
        rtp_port: u16,
        session_id: Seq<char>,
        ceiling_mbps: Option<u16>,
    ) -> SourceSessionState {
        SourceSessionState {
            mode,
            rtp_port,
            session_id,
            ceiling_mbps,
            state: SourceState::Init,
            next_cseq: 1,
            asked_caps: false,
            m1_answered: None,
            chosen: None,
            sink: None,
            last_heard: None,
            last_keepalive: None,
        }
    }

    /// The state once a sequence number has been used.
    pub open spec fn numbered(self) -> SourceSessionState {
        SourceSessionState { next_cseq: next_number(self.next_cseq), ..self }
    }

    /// A request to the one address there is.
    pub open spec fn ask(self, method: Seq<char>, body: Seq<char>) -> MessageView {
        request_view(method, PRESENTATION_URL@, self.next_cseq, body)
    }

    /// The state once capabilities have been asked for.
    pub open spec fn asked(self) -> SourceSessionState {
        SourceSessionState { asked_caps: true, ..self.numbered() }
    }

    /// The port the display wants RTP sent to: 5000 before it has said.
    pub open spec fn sink_port(self) -> u16 {
        match self.sink {
            Some(c) => c.rtp_port,
            None => 5000,
        }
    }
}

/// What the start of a session comes to: M1.
pub open spec fn started(s: SourceSessionState) -> (SourceSessionState, Seq<ActionView>) {
    (
        SourceSessionState { state: SourceState::AwaitingCaps, ..s.numbered() },
        seq![
            ActionView::Send(
                request_view("OPTIONS"@, "*"@, s.next_cseq, ""@).with(
                    "Require"@,
                    "org.wfa.wfd1.0"@,
                ),
            ),
        ],
    )
}

/// What a display sets: a wish for a keyframe, and a ceiling on the rate. Both
/// may come in one body, and both are passed on.
pub open spec fn wishes(body: Seq<char>) -> Seq<ActionView> {
    (if has_part(body, "wfd_idr_request"@) {
        seq![ActionView::Keyframe]
    } else {
        seq![]
    }) + (match max_bitrate_from(lines(body), 0) {
        Some(k) => seq![ActionView::Bitrate(k as u32)],
        None => seq![],
    })
}

/// What a request of the display comes to.
pub open spec fn requested(s: SourceSessionState, method: Seq<char>, m: MessageView) -> (
    SourceSessionState,
    Seq<ActionView>,
) {
    if method == "OPTIONS"@ {
        // M2, and any later OPTIONS the display feels like sending. M3 is due
        // after it, once, and not before M1 has been answered.
        let ok = ActionView::Send(
            response_view(200, m.cseq_or_zero(), ""@).with("Public"@, PUBLIC@),
        );
        if !s.asked_caps && s.m1_answered is Some {
            (s.asked(), seq![ok, ActionView::Send(s.ask("GET_PARAMETER"@, question_text()))])
        } else {
            (s, seq![ok])
        }
    } else if method == "SETUP"@ {
        // M6. The sink refuses a SETUP response with no Session header.
        let ok = response_view(200, m.cseq_or_zero(), ""@).with("Session"@, s.session_id).with(
            "Transport"@,
            "RTP/AVP/UDP;unicast;client_port="@ + dec(s.sink_port() as nat) + ";server_port="@
                + dec(s.rtp_port as nat),
        );
        (
            SourceSessionState { state: SourceState::AwaitingSetup, ..s },
            seq![ActionView::Send(ok)],
        )
    } else if method == "PLAY"@ {
        // M7: media starts.
        (
            SourceSessionState { state: SourceState::Playing, ..s },
            seq![reply(200, m), ActionView::Play],
        )
    } else if method == "TEARDOWN"@ {
        (
            SourceSessionState { state: SourceState::Done, ..s },
            seq![
                reply(200, m),
                ActionView::Teardown("session: the display ended the session"@),
            ],
        )
    } else if method == "SET_PARAMETER"@ {
        // A display asking for a keyframe, or for less. It gets both.
        (s, seq![reply(200, m)] + wishes(m.body))
    } else {
        // Never fatal: a display may ask us things we have never seen, and
        // refusing them would refuse the display.
        (s, seq![reply(200, m)])
    }
}

/// What the display's capabilities come to: M4 and M5, back to back, or the end.
pub open spec fn configured(s: SourceSessionState, body: Seq<char>) -> (
    SourceSessionState,
    Seq<ActionView>,
) {
    match caps_of(body) {
        Err(_) => (
            s,
            seq![
                ActionView::Teardown(
                    "negotiation: the display sent capabilities we could not read"@,
                ),
            ],
        ),
        Ok(sink) => {
            let ceiling = lower_ceiling(s.ceiling_mbps, in_mbps(sink.max_bitrate_kbps));
            match selected(sink, proposals(s.mode, ceiling), 0) {
                None => (s, seq![ActionView::Teardown("negotiation: no video format in common"@)]),
                Some(sel) => match bit_from(sel.mode, 0) {
                    None => (
                        s,
                        seq![
                            ActionView::Teardown(
                                "negotiation: chose a mode with no table entry"@,
                            ),
                        ],
                    ),
                    Some(bit) => {
                        let t = SourceSessionState {
                            chosen: Some(sel.mode),
                            sink: Some(sink),
                            state: SourceState::Configuring,
                            ..s
                        };
                        (
                            t.numbered().numbered(),
                            seq![
                                ActionView::Send(
                                    t.ask("SET_PARAMETER"@, selection_text(bit, s.rtp_port)),
                                ),
                                ActionView::Send(
                                    t.numbered().ask(
                                        "SET_PARAMETER"@,
                                        "wfd_trigger_method: SETUP\r\n"@,
                                    ),
                                ),
                            ],
                        )
                    },
                },
            }
        },
    }
}

/// What an answer of the display comes to.
pub open spec fn answered(s: SourceSessionState, status: u16, m: MessageView, now: Instant) -> (
    SourceSessionState,
    Seq<ActionView>,
) {
    if status != 200 {
        (s, seq![ActionView::Teardown("negotiation: the display refused a request"@)])
    } else if !s.asked_caps {
        // M1 answered. M3 waits for the sink's own OPTIONS, M2.
        (SourceSessionState { m1_answered: Some(now), ..s }, Seq::empty())
    } else if s.sink is None && trim(m.body).len() != 0 {
        configured(s, m.body)
    } else {
        // A keep-alive answered, or an acknowledgement of something we set.
        (s, Seq::empty())
    }
}

/// What a message that arrives at `now` comes to.
pub open spec fn handled(s: SourceSessionState, m: MessageView, now: Instant) -> (
    SourceSessionState,
    Seq<ActionView>,
) {
    let t = SourceSessionState { last_heard: Some(now), ..s };
    match m.start {
        StartLineView::Request { method, .. } => requested(t, method, m),
        StartLineView::Response { status, .. } => answered(t, status, m, now),
    }
}

/// What the passing of time comes to.
pub open spec fn ticked(s: SourceSessionState, now: Instant) -> (
    SourceSessionState,
    Seq<ActionView>,
) {
    if !s.asked_caps && s.m1_answered is Some && since(now, s.m1_answered.unwrap()) >= M2_GRACE {
        (s.asked(), seq![ActionView::Send(s.ask("GET_PARAMETER"@, question_text()))])
    } else if s.state != SourceState::Playing {
        (s, Seq::empty())
    } else if s.last_heard is Some && since(now, s.last_heard.unwrap()) > KEEPALIVE_TIMEOUT {
        (
            SourceSessionState { state: SourceState::Done, ..s },
            seq![ActionView::Teardown("session: the display stopped answering"@)],
        )
    } else if s.last_keepalive is Some && since(now, s.last_keepalive.unwrap()) < KEEPALIVE_EVERY {
        (s, Seq::empty())
    } else {
        (
            SourceSessionState { last_keepalive: Some(now), ..s.numbered() },
            seq![ActionView::Send(s.ask("GET_PARAMETER"@, ""@))],
        )
    }
}

impl SourceSession {
    pub fn new(cfg: SourceConfig) -> (s: Self)
        ensures
            s@ == SourceSessionState::init(
                cfg.mode,
                cfg.rtp_port,
                cfg.session_id@,
                cfg.ceiling_mbps,
            ),
    {
        SourceSession {
            cfg,
            state: SourceState::Init,
            next_cseq: 1,
            asked_caps: false,
            m1_answered: None,
            chosen: None,
            sink: None,
            last_heard: None,
            last_keepalive: None,
        }
    }

    pub fn state(&self) -> (s: SourceState)
        ensures
            s == self@.state,
    {
        self.state
    }

    pub fn chosen(&self) -> (m: Option<VideoMode>)
        ensures
            m == self@.chosen,
    {
        self.chosen
    }

    /// The port the display wants RTP sent to, once it has told us.
    pub fn sink_rtp_port(&self) -> (p: Option<u16>)
        ensures
            p == match self@.sink {
                Some(c) => Some(c.rtp_port),
                None => None,
            },
    {
        match &self.sink {
            Some(c) => Some(c.rtp_port),
            None => None,
        }
    }

    /// The ceiling the display asked us to respect, if it named one.
    pub fn max_bitrate_kbps(&self) -> (k: Option<u32>)
        ensures
            k == match self@.sink {
                Some(c) => c.max_bitrate_kbps,
                None => None,
            },
    {
        match &self.sink {
            Some(c) => c.max_bitrate_kbps,
            None => None,
        }
    }

    /// When the display was last heard from at all.
    ///
    /// RTP carries no feedback, so this is the only thing a source knows about
    /// the far end, and it is what a status readout has to report. `None`
    /// before the first reply arrives.
    pub fn last_heard(&self) -> (t: Option<Instant>)
        ensures
            t == self@.last_heard,
    {
        self.last_heard
    }

    fn cseq(&mut self) -> (c: u32)
        ensures
            c == old(self)@.next_cseq,
            final(self)@ == old(self)@.numbered(),
    {
        let c: u32 = self.next_cseq;
        self.next_cseq = c.wrapping_add(1);
        c
    }

    fn ask(&mut self, method: &str, body: &str) -> (m: Message)
        ensures
            m@ == old(self)@.ask(method@, body@),
            final(self)@ == old(self)@.numbered(),
    {
        let c: u32 = self.cseq();
        request(method, PRESENTATION_URL, c, body)
    }

    /// M1: the first thing on the connection.
    pub fn start(&mut self) -> (r: Vec<Action>)
        ensures
            (final(self)@, actions(r@)) == started(old(self)@),
    {
        let cseq: u32 = self.cseq();
        let mut m1 = request("OPTIONS", "*", cseq, "");
        m1.add_header("Require", "org.wfa.wfd1.0".to_owned());
        self.state = SourceState::AwaitingCaps;
        one(Action::Send(m1))
    }

    /// Handles a message that arrives now.
    pub fn on_message(&mut self, m: &Message, clock: &Clock) -> (r: Vec<Action>)
        ensures
            exists|now: Instant|
                (final(self)@, actions(r@)) == #[trigger] handled(old(self)@, m@, now),
    {
        let now = clock.now();
        let r = self.on_message_at(m, now);
        assert((self@, actions(r@)) == handled(old(self)@, m@, now));
        r
    }

    /// The time is handed in, so the keep-alive rule does not depend on a clock.
    pub fn on_message_at(&mut self, m: &Message, now: Instant) -> (r: Vec<Action>)
        ensures
            (final(self)@, actions(r@)) == handled(old(self)@, m@, now),
    {
        self.last_heard = Some(now);
        match &m.start {
            StartLine::Request { method, .. } => self.on_request(method, m),
            StartLine::Response { status, .. } => self.on_response(*status, m, now),
        }
    }

    fn on_request(&mut self, method: &str, m: &Message) -> (r: Vec<Action>)
        ensures
            (final(self)@, actions(r@)) == requested(old(self)@, method@, m@),
    {
        let cseq: u32 = m.cseq_or_zero();
        let name = to_chars(method);
        if is_str(&name, "OPTIONS") {
            let mut ok = response(200, cseq, "");
            ok.add_header("Public", PUBLIC.to_owned());
            // M2 has now happened, so M3 is due. This is the ordering a real
            // display insists on.
            if !self.asked_caps && self.m1_answered.is_some() {
                let question = self.ask_capabilities();
                two(Action::Send(ok), question)
            } else {
                one(Action::Send(ok))
            }
        } else if is_str(&name, "SETUP") {
            let mut ok = response(200, cseq, "");
            ok.add_header("Session", self.cfg.session_id.clone());
            let port: u16 = match self.sink_rtp_port() {
                Some(p) => p,
                None => 5000,
            };
            let mut t: Vec<char> = Vec::new();
            push_str(&mut t, "RTP/AVP/UDP;unicast;client_port=");
            push_dec(&mut t, port as u64);
            push_str(&mut t, ";server_port=");
            push_dec(&mut t, self.cfg.rtp_port as u64);
            assert(t@ =~= "RTP/AVP/UDP;unicast;client_port="@ + dec(self@.sink_port() as nat)
                + ";server_port="@ + dec(self@.rtp_port as nat));
            ok.add_header("Transport", to_string(&t));
            self.state = SourceState::AwaitingSetup;
            one(Action::Send(ok))
        } else if is_str(&name, "PLAY") {
            self.state = SourceState::Playing;
            two(Action::Send(response(200, cseq, "")), Action::Play)
        } else if is_str(&name, "TEARDOWN") {
            self.state = SourceState::Done;
            two(
                Action::Send(response(200, cseq, "")),
                Action::Teardown("session: the display ended the session"),
            )
        } else if is_str(&name, "SET_PARAMETER") {
            let mut out = one(Action::Send(response(200, cseq, "")));
            let ghost ok = actions(out@);
            if contains(&to_chars(&m.body), "wfd_idr_request") {
                out.push(Action::Keyframe);
            }
            let ghost first = out@;
            assert(actions(out@) =~= ok + (if has_part(m@.body, "wfd_idr_request"@) {
                seq![ActionView::Keyframe]
            } else {
                seq![]
            }));
            // Ignoring a display that asks for less means sending the same rate
            // into a link that is failing already.
            if let Some(kbps) = parse_max_bitrate_kbps(&m.body) {
                out.push(Action::Bitrate(kbps));
                assert(actions(out@) =~= actions(first).push(ActionView::Bitrate(kbps)));
            }
            assert(actions(out@) =~= seq![reply(200, m@)] + wishes(m@.body));
            out
        } else {
            one(Action::Send(response(200, cseq, "")))
        }
    }

    fn on_response(&mut self, status: u16, m: &Message, now: Instant) -> (r: Vec<Action>)
        ensures
            (final(self)@, actions(r@)) == answered(old(self)@, status, m@, now),
    {
        if status != 200 {
            return one(Action::Teardown("negotiation: the display refused a request"));
        }
        if !self.asked_caps {
            // M1 answered. Do *not* ask for capabilities yet: the sink's own
            // OPTIONS - M2 - comes next, and an M3 sent before it is ignored
            // by a display that follows the sequence properly.
            self.m1_answered = Some(now);
            return none();
        }
        let body = to_chars(&m.body);
        if self.sink.is_none() && trim_of(&body).len() != 0 {
            return self.on_capabilities(m);
        }
        none()
    }

    /// M3: ask the display what it can take.
    fn ask_capabilities(&mut self) -> (a: Action)
        ensures
            final(self)@ == old(self)@.asked(),
            a@ == ActionView::Send(old(self)@.ask("GET_PARAMETER"@, question_text())),
    {
        self.asked_caps = true;
        let m = self.ask(
            "GET_PARAMETER",
            "wfd_video_formats\r\nwfd_audio_codecs\r\nwfd_content_protection\r\nwfd_client_rtp_ports\r\n",
        );
        Action::Send(m)
    }

    fn on_capabilities(&mut self, m: &Message) -> (r: Vec<Action>)
        ensures
            (final(self)@, actions(r@)) == configured(old(self)@, m@.body),
    {
        let sink = match parse(&m.body) {
            Ok(c) => c,
            Err(_) => {
                return one(
                    Action::Teardown(
                        "negotiation: the display sent capabilities we could not read",
                    ),
                );
            },
        };
        // The list of what to propose can only be built now: until M3 we did not
        // know what the display can carry, and offering it more than that is
        // asking for a stream it has already said it cannot take.
        let named: Option<u16> = match sink.max_bitrate_kbps {
            Some(k) => Some(((k / 1000) % 65536) as u16),
            None => None,
        };
        let ceiling: Option<u16> = match (self.cfg.ceiling_mbps, named) {
            (Some(x), Some(y)) => Some(
                if x <= y {
                    x
                } else {
                    y
                },
            ),
            (Some(x), None) => Some(x),
            (None, y) => y,
        };
        let ours = our_modes(self.cfg.mode, ceiling);
        let chosen = match choose_mode(&sink, &ours) {
            Ok(mode) => mode,
            Err(_) => {
                return one(Action::Teardown("negotiation: no video format in common"));
            },
        };
        let bit: u32 = match mode_bit(chosen) {
            Some(b) => b,
            None => {
                return one(Action::Teardown("negotiation: chose a mode with no table entry"));
            },
        };
        self.chosen = Some(chosen);
        self.sink = Some(sink);
        self.state = SourceState::Configuring;
        // M4 then M5, back to back: name the one mode we chose, then ask the
        // display to take over as client and send us SETUP. Exactly one bit is
        // set in exactly one table, which is what a sink will accept.
        let mut set: Vec<char> = Vec::new();
        push_str(&mut set, "wfd_video_formats: 00 00 02 04 ");
        push_hex_capitals(&mut set, bit as u64, 8);
        push_str(&mut set, " 00000000 00000000 00 0000 0000 00 none none\r\n");
        push_str(&mut set, "wfd_audio_codecs: LPCM 00000002 00\r\n");
        push_str(&mut set, "wfd_presentation_URL: ");
        push_str(&mut set, PRESENTATION_URL);
        push_str(&mut set, " none\r\n");
        push_str(&mut set, "wfd_client_rtp_ports: RTP/AVP/UDP;unicast ");
        push_dec(&mut set, self.cfg.rtp_port as u64);
        push_str(&mut set, " 0 mode=play\r\n");
        assert(set@ =~= selection_text(bit, self@.rtp_port));
        let m4 = self.ask("SET_PARAMETER", &to_string(&set));
        let m5 = self.ask("SET_PARAMETER", "wfd_trigger_method: SETUP\r\n");
        two(Action::Send(m4), Action::Send(m5))
    }

    /// Time-driven work: a keep-alive out, and giving up on a silent display.
    ///
    /// RTP is one-way with no feedback, so silence on the media path cannot
    /// tell a still desktop from a dead display. This is the only liveness
    /// signal there is.
    pub fn tick(&mut self, now: Instant) -> (r: Vec<Action>)
        ensures
            (final(self)@, actions(r@)) == ticked(old(self)@, now),
    {
        // A sink that never sends M2 must not be waited on for ever. After the
        // grace period, ask anyway.
        if !self.asked_caps {
            if let Some(answered) = self.m1_answered {
                if now.saturating_duration_since(answered).nanos >= M2_GRACE {
                    let question = self.ask_capabilities();
                    return one(question);
                }
            }
        }
        if self.state != SourceState::Playing {
            return none();
        }
        if let Some(last) = self.last_heard {
            if now.saturating_duration_since(last).nanos > KEEPALIVE_TIMEOUT {
                self.state = SourceState::Done;
                return one(Action::Teardown("session: the display stopped answering"));
            }
        }
        if let Some(t) = self.last_keepalive {
            if now.saturating_duration_since(t).nanos < KEEPALIVE_EVERY {
                return none();
            }
        }
        let m = self.ask("GET_PARAMETER", "");
        self.last_keepalive = Some(now);
        one(Action::Send(m))
    }

    /// The message that ends a session politely. The caller sends this before
    /// closing, always: a display left believing a session is live can refuse
    /// the next one.
    pub fn teardown(&mut self) -> (m: Message)
        ensures
            m@ == old(self)@.ask("TEARDOWN"@, ""@).with("Session"@, old(self)@.session_id),
            final(self)@ == (SourceSessionState {
                state: SourceState::Done,
                ..old(self)@.numbered()
            }),
    {
        let mut m = self.ask("TEARDOWN", "");
        self.state = SourceState::Done;
        m.add_header("Session", self.cfg.session_id.clone());
        m
    }
}

// ---- laws ----

/// Every request of the display is answered, first of all, under its own
/// sequence number, with 200: nothing it asks is refused.
pub proof fn law_every_request_is_answered(s: SourceSessionState, m: MessageView, now: Instant)
    requires
        m.start is Request,
    ensures
        handled(s, m, now).1.len() > 0,
        handled(s, m, now).1[0] matches ActionView::Send(r) && (r.start matches StartLineView::Response {
            status,
            ..
        } && status == 200) && r.headers[0] == ("CSeq"@, dec(m.cseq_or_zero() as nat)),
{
}

/// Whether a list of actions asks for capabilities.
pub open spec fn asks_capabilities(acts: Seq<ActionView>) -> bool {
    exists|i: int|
        0 <= i < acts.len() && (#[trigger] acts[i] matches ActionView::Send(m) && m.body
            == question_text())
}

proof fn lemma_question_is_its_own_body()
    ensures
        question_text() != ""@,
        question_text() != "wfd_trigger_method: SETUP\r\n"@,
        forall|bit: u32, port: u16| question_text() != #[trigger] selection_text(bit, port),
{
    reveal_strlit("");
    reveal_strlit("wfd_trigger_method: SETUP\r\n");
    reveal_strlit(
        "wfd_video_formats\r\nwfd_audio_codecs\r\nwfd_content_protection\r\nwfd_client_rtp_ports\r\n",
    );
    reveal_strlit("wfd_video_formats: 00 00 02 04 ");
    assert(""@.len() == 0 && question_text().len() > 17);
    assert(question_text()[4] == 'v' && question_text()[17] == '\r');
    assert("wfd_trigger_method: SETUP\r\n"@[4] == 't');
    assert forall|bit: u32, port: u16| question_text() != #[trigger] selection_text(bit, port) by {
        assert(selection_text(bit, port)[17] == ':');
    }
}

/// Capabilities are asked for only after our own `OPTIONS` has been answered,
/// and only once.
pub proof fn law_capabilities_are_asked_for_once(s: SourceSessionState, m: MessageView, now: Instant)
    ensures
        asks_capabilities(handled(s, m, now).1) ==> s.m1_answered is Some && !s.asked_caps
            && handled(s, m, now).0.asked_caps,
        asks_capabilities(ticked(s, now).1) ==> s.m1_answered is Some && !s.asked_caps && ticked(
            s,
            now,
        ).0.asked_caps,
        s.asked_caps ==> handled(s, m, now).0.asked_caps && ticked(s, now).0.asked_caps,
{
    lemma_question_is_its_own_body();
}

/// A display that never sends its own `OPTIONS` is asked for capabilities two
/// seconds after it answered ours, and no sooner.
pub proof fn law_a_display_without_m2_is_asked_anyway(
    s: SourceSessionState,
    heard: Instant,
    now: Instant,
)
    requires
        !s.asked_caps,
        s.m1_answered == Some(heard),
        s.state != SourceState::Playing,
    ensures
        asks_capabilities(ticked(s, now).1) <==> since(now, heard) >= 2_000_000_000,
{
    let acts = ticked(s, now).1;
    if since(now, heard) >= 2_000_000_000 {
        assert(acts[0] matches ActionView::Send(m) && m.body == question_text());
    }
}

/// A silent display is given up on after ten seconds of playing, once.
pub proof fn law_a_silent_display_is_given_up_on(
    s: SourceSessionState,
    heard: Instant,
    now: Instant,
    later: Instant,
)
    requires
        s.state == SourceState::Playing,
        s.asked_caps || s.m1_answered is None,
        s.last_heard == Some(heard),
    ensures
        since(now, heard) > 10_000_000_000 ==> ticked(s, now).0.state == SourceState::Done
            && ticked(s, now).1 == seq![
            ActionView::Teardown("session: the display stopped answering"@),
        ] && ticked(ticked(s, now).0, later).1.len() == 0,
        since(now, heard) <= 10_000_000_000 ==> ticked(s, now).0.state == SourceState::Playing,
{
}

/// The methods that are told apart are.
proof fn lemma_methods_differ()
    ensures
        "SET_PARAMETER"@ != "OPTIONS"@,
        "SET_PARAMETER"@ != "SETUP"@,
        "SET_PARAMETER"@ != "PLAY"@,
        "SET_PARAMETER"@ != "TEARDOWN"@,
{
    reveal_strlit("SET_PARAMETER");
    reveal_strlit("OPTIONS");
    reveal_strlit("SETUP");
    reveal_strlit("PLAY");
    reveal_strlit("TEARDOWN");
    assert("SET_PARAMETER"@.len() == 13 && "OPTIONS"@.len() == 7 && "SETUP"@.len() == 5
        && "PLAY"@.len() == 4 && "TEARDOWN"@.len() == 8);
}

/// Whether a message sets parameters.
pub open spec fn sets_parameters(m: MessageView) -> bool {
    m.start matches StartLineView::Request { method, .. } && method == "SET_PARAMETER"@
}

/// Only what a display asks for with `wfd_idr_request` reaches the encoder as
/// a wish for a keyframe, and every such request does.
pub proof fn law_keyframes_on_request(s: SourceSessionState, m: MessageView, now: Instant)
    ensures
        handled(s, m, now).1.contains(ActionView::Keyframe) <==> sets_parameters(m) && has_part(
            m.body,
            "wfd_idr_request"@,
        ),
{
    lemma_methods_differ();
    let acts = handled(s, m, now).1;
    if sets_parameters(m) && has_part(m.body, "wfd_idr_request"@) {
        assert(acts[1] == ActionView::Keyframe);
    }
}

/// A display that asks for less gets less: the ceiling it names with
/// `microsoft_max_bitrate` reaches the encoder, whatever else is in the body,
/// and no other ceiling ever does.
pub proof fn law_ceilings_on_request(
    s: SourceSessionState,
    m: MessageView,
    now: Instant,
    kbps: u32,
)
    ensures
        handled(s, m, now).1.contains(ActionView::Bitrate(kbps)) <==> sets_parameters(m)
            && max_bitrate_from(lines(m.body), 0) == Some(kbps as nat),
{
    lemma_methods_differ();
    let acts = handled(s, m, now).1;
    if sets_parameters(m) {
        crate::miracast::wfd::lemma_max_bitrate_bound(lines(m.body), 0);
        if max_bitrate_from(lines(m.body), 0) == Some(kbps as nat) {
            assert(acts.last() == ActionView::Bitrate(kbps));
        }
    }
}

/// What the sink writes to ask for less is what reaches the source's encoder.
pub proof fn law_a_sinks_wish_reaches_the_encoder(
    s: SourceSessionState,
    m: MessageView,
    now: Instant,
    kbps: u32,
)
    requires
        sets_parameters(m),
        m.body == "microsoft_max_bitrate: "@ + dec(kbps as nat) + "\r\n"@,
    ensures
        handled(s, m, now).1.contains(ActionView::Bitrate(kbps)),
{
    law_bitrate_request_reads_back(kbps);
    law_ceilings_on_request(s, m, now, kbps);
}

} // verus!
