//! What the sink decides while it serves a group.
//!
//! Whoever owns the sockets, the supplicant and the screen runs the loop: it
//! hands in what happened - a supplicant event, a datagram, bytes from the
//! control connection, the passing of time - and does what comes back.
use vstd::prelude::*;
use crate::miracast::dhcp;
use crate::miracast::dhcp::default_lease;
use crate::miracast::p2p;
use crate::miracast::p2p::{Command, EventView};
use crate::miracast::pairing::{check_digit, checksum, pin_from, pin_text};
use crate::miracast::rtsp::ticked;
use crate::miracast::session::{
    acted_from, events, keyframe_wished, media_received, received, Session, SessionState,
    SinkEvent, SinkEventView,
};
use crate::miracast::rtsp_laws::tight;
use crate::miracast::supplicant_conf::{ended, lemma_lines_of_ended, one_line};
use crate::miracast::wfd::{AudioCodecs, Capabilities, ClientPorts, VideoFormats};
use crate::number::{hex, parse_dec, push_hex_wide, read_dec, zero_fill};
use crate::text::{
    has_prefix, is_str, lemma_trim_of_tight, lines, lines_of, lower_of, lowered, pieces, pieces_of,
    push_chars, push_str, same, starts_with, texts, to_chars, to_string, trim, trim_of,
};
use crate::time::Instant;
use crate::wire::{be32_at, read_be32};

verus! {

/// Where the supplicant we start puts its control socket. Its own instance,
/// not the system one, so a station connection on `wlan0` is untouched.
pub const CTRL_DIR: &'static str = "/run/wpa_supplicant_castr";

/// The configuration `setup.sh` installs.
pub const CONF_PATH: &'static str = "/etc/castr/wpa_supplicant-p2p.conf";

/// The radio interface. The group owner appears as a second, virtual one.
pub const WLAN: &'static str = "wlan0";

/// Used when a scan tells us nothing, which is the common case indoors.
pub const DEFAULT_CHANNEL: u32 = 6;

pub struct SinkConfig {
    /// Shown in the Windows cast list.
    pub name: String,
    /// `None` picks the least busy of channels 1, 6 and 11.
    pub channel: Option<u32>,
    pub rtsp_port: u16,
    pub rtp_port: u16,
    /// Where peers that have completed WPS are remembered.
    pub paired_path: String,
}

impl Default for SinkConfig {
    fn default() -> (c: Self)
        ensures
            c.name@ == "castr"@,
            c.channel is None,
            c.rtsp_port == 7236,
            c.rtp_port == 5000,
            c.paired_path@ == "/var/lib/castr/miracast-peers.toml"@,
    {
        SinkConfig {
            name: "castr".to_owned(),
            channel: None,
            rtsp_port: 7236,
            rtp_port: 5000,
            paired_path: "/var/lib/castr/miracast-peers.toml".to_owned(),
        }
    }
}

/// What the sink hands back to the receiver.
#[derive(Debug)]
pub enum SinkOut {
    /// Show this eight-digit PIN on the television.
    Pin(String),
    Video { data: Vec<u8>, pts_us: Option<u64> },
    Audio { data: Vec<u8>, pts_us: Option<u64> },
    Started,
    Ended(String),
}

#[verifier::ext_equal]
pub enum SinkOutView {
    Pin(Seq<char>),
    Video { data: Seq<u8>, pts_us: Option<u64> },
    Audio { data: Seq<u8>, pts_us: Option<u64> },
    Started,
    Ended(Seq<char>),
}

impl View for SinkOut {
    type V = SinkOutView;

    open spec fn view(&self) -> SinkOutView {
        match self {
            SinkOut::Pin(s) => SinkOutView::Pin(s@),
            SinkOut::Video { data, pts_us } => SinkOutView::Video { data: data@, pts_us: *pts_us },
            SinkOut::Audio { data, pts_us } => SinkOutView::Audio { data: data@, pts_us: *pts_us },
            SinkOut::Started => SinkOutView::Started,
            SinkOut::Ended(s) => SinkOutView::Ended(s@),
        }
    }
}

// ---- small decisions ----

/// The frequency of a 2.4 GHz channel, in MHz.
pub fn channel_to_freq(channel: u32) -> (f: u32)
    requires
        2407 + 5 * channel <= u32::MAX,
    ensures
        f == 2407 + 5 * channel,
{
    2407 + 5 * channel
}

/// What the sink offers: one video mode and one audio mode. The 2.4 GHz radio
/// cannot hold more than eight megabits over the air, and asking for more only
/// buys retransmissions.
pub fn capabilities(rtp_port: u16) -> (c: Capabilities)
    ensures
        c == capabilities_of(rtp_port),
{
    Capabilities {
        video: VideoFormats::only_720p30(),
        audio: AudioCodecs::lpcm_48k_stereo(),
        ports: ClientPorts { rtp_port },
        max_bitrate_kbps: 8000,
        latency_management: true,
        format_change: true,
    }
}

pub open spec fn capabilities_of(rtp_port: u16) -> Capabilities {
    Capabilities {
        video: VideoFormats { cea: 0x20, vesa: 0, hh: 0, profile: 0x02, level: 0x04 },
        audio: AudioCodecs { lpcm_modes: 2 },
        ports: ClientPorts { rtp_port },
        max_bitrate_kbps: 8000,
        latency_management: true,
        format_change: true,
    }
}

/// Whether a reply refuses a command.
pub open spec fn refuses(reply: Seq<char>) -> bool {
    trim(reply) == "FAIL"@ || has_prefix(trim(reply), "FAIL "@)
}

/// What is wrong with a reply to a command: the command and the reply, when it
/// is a refusal.
pub fn refusal(cmd: &str, reply: &str) -> (r: Option<String>)
    ensures
        r is Some <==> refuses(reply@),
        r matches Some(e) ==> e@ == cmd@ + ": "@ + trim(reply@),
{
    let a = to_chars(reply);
    let t = trim_of(&a);
    if is_str(t, "FAIL") || starts_with(t, "FAIL ") {
        let mut s: Vec<char> = Vec::new();
        push_str(&mut s, cmd);
        push_str(&mut s, ": ");
        push_chars(&mut s, t);
        assert(s@ =~= cmd@ + ": "@ + trim(reply@));
        Some(to_string(&s))
    } else {
        None
    }
}

/// What a supplicant event means while the group is waited for.
#[derive(Debug)]
pub enum GroupWait {
    /// The group is up, and ours, on this interface.
    Up(String),
    /// The group is up with us as client, which is of no use.
    NotOwner,
    /// Nothing yet.
    Waiting,
}

pub fn group_wait(e: p2p::Event) -> (r: GroupWait)
    ensures
        match (r, e@) {
            (GroupWait::Up(i), EventView::GroupStarted { interface, go, .. }) => go && i@
                == interface,
            (GroupWait::NotOwner, EventView::GroupStarted { go, .. }) => !go,
            (GroupWait::Waiting, v) => v !is GroupStarted,
            _ => false,
        },
{
    match e {
        p2p::Event::GroupStarted { interface, go, .. } => if go {
            GroupWait::Up(interface)
        } else {
            GroupWait::NotOwner
        },
        _ => GroupWait::Waiting,
    }
}

/// The session identifier for four random bytes: eight hex digits, which is all
/// it has to be.
pub fn session_id(b: &[u8; 4]) -> (r: String)
    ensures
        r@ == session_id_text(b@),
{
    let mut s: Vec<char> = Vec::new();
    push_hex_wide(&mut s, b[0] as u64, 2);
    push_hex_wide(&mut s, b[1] as u64, 2);
    push_hex_wide(&mut s, b[2] as u64, 2);
    push_hex_wide(&mut s, b[3] as u64, 2);
    assert(s@ =~= session_id_text(b@));
    to_string(&s)
}

/// A WPS PIN for four random bytes: seven digits and the checksum digit the
/// standard defines.
pub fn generate_pin(b: &[u8; 4]) -> (r: String)
    ensures
        r@ == pin_text(be32_at(b@, 0) as u32),
{
    pin_from(read_be32(b, 0))
}

/// The WPS checksum digit: the argument is the seven-digit value, and the digit
/// this returns is appended to it.
pub fn pin_checksum(pin: u32) -> (d: u32)
    ensures
        d == check_digit(pin as nat),
{
    checksum(pin)
}

/// Bytes to go by when there is no random source: those of the clock's
/// nanoseconds. A predictable PIN beats a panic: the PIN is shown on a screen
/// in the room, not used as a secret at a distance.
pub fn clock_bytes(nanos: u32) -> (b: [u8; 4])
    ensures
        b@ == seq![
            (nanos % 256) as u8,
            (nanos / 256 % 256) as u8,
            (nanos / 65536 % 256) as u8,
            (nanos / 16777216) as u8,
        ],
{
    let b: [u8; 4] = [
        (nanos % 256) as u8,
        (nanos / 256 % 256) as u8,
        (nanos / 65536 % 256) as u8,
        (nanos / 16777216) as u8,
    ];
    assert(b@ =~= seq![
        (nanos % 256) as u8,
        (nanos / 256 % 256) as u8,
        (nanos / 65536 % 256) as u8,
        (nanos / 16777216) as u8,
    ]);
    b
}

// ---- the channel ----

/// The frequency that a line of scan results names, if it names one.
pub open spec fn scan_freq(line: Seq<char>) -> Option<nat> {
    let fs = pieces(line, '\t');
    if fs.len() >= 2 {
        parse_dec(trim(fs[1]), u32::MAX as nat)
    } else {
        None
    }
}

/// Whether a network on this frequency lands in the band of a channel: within
/// two channels of it.
pub open spec fn in_band(freq: nat, centre: int) -> bool {
    -10 <= freq - centre <= 10
}

/// How many of the scan lines from `i` on land in the band of a channel.
pub open spec fn busy(ls: Seq<Seq<char>>, i: int, centre: int) -> nat
    decreases ls.len() - i,
{
    if i >= ls.len() {
        0
    } else {
        (match scan_freq(ls[i]) {
            Some(f) if in_band(f, centre) => 1nat,
            _ => 0nat,
        }) + busy(ls, i + 1, centre)
    }
}

/// The least busy of channels 1, 6 and 11, the lowest when several are; channel
/// 6 when a scan saw nothing on any of them.
pub open spec fn least_busy(results: Seq<char>) -> u32 {
    let ls = lines(results);
    let a = busy(ls, 1, 2412);
    let b = busy(ls, 1, 2437);
    let c = busy(ls, 1, 2462);
    if a == 0 && b == 0 && c == 0 {
        DEFAULT_CHANNEL
    } else if a <= b && a <= c {
        1
    } else if b <= c {
        6
    } else {
        11
    }
}

fn read_scan_freq(line: &[char]) -> (r: Option<u32>)
    ensures
        r is Some <==> scan_freq(line@) is Some,
        r matches Some(f) ==> scan_freq(line@) == Some(f as nat),
{
    let fs = pieces_of(line, '\t');
    assert(texts(fs@) == pieces(line@, '\t'));
    if fs.len() >= 2 {
        assert(texts(fs@)[1] == fs@[1]@);
        match read_dec(trim_of(&fs[1]), u32::MAX as u64) {
            Some(n) => Some(n as u32),
            None => None,
        }
    } else {
        None
    }
}

fn count_busy(ls: &Vec<Vec<char>>, centre: u32) -> (n: usize)
    requires
        10 <= centre <= 10_000,
    ensures
        n == busy(texts(ls@), 1, centre as int),
{
    let ghost all = texts(ls@);
    let mut n: usize = 0;
    let mut i: usize = 1;
    while i < ls.len()
        invariant
            10 <= centre <= 10_000,
            1 <= i,
            all == texts(ls@),
            n < i,
            n + busy(all, i as int, centre as int) == busy(all, 1, centre as int),
        decreases ls@.len() - i,
    {
        assert(all[i as int] == ls@[i as int]@);
        if let Some(f) = read_scan_freq(&ls[i]) {
            let near = f >= centre - 10 && f <= centre + 10;
            if near {
                n = n + 1;
            }
        }
        i = i + 1;
    }
    n
}

/// The least busy of the non-overlapping channels, from the results of one
/// scan. A scan that tells us nothing is normal, and channel 6 is the safe
/// default.
pub fn pick_channel(results: &str) -> (ch: u32)
    ensures
        ch == least_busy(results@),
{
    let a = to_chars(results);
    let ls = lines_of(&a);
    let low: usize = count_busy(&ls, 2412);
    let mid: usize = count_busy(&ls, 2437);
    let high: usize = count_busy(&ls, 2462);
    if low == 0 && mid == 0 && high == 0 {
        DEFAULT_CHANNEL
    } else if low <= mid && low <= high {
        1
    } else if mid <= high {
        6
    } else {
        11
    }
}

// ---- the peers ----

/// The peers that have completed WPS, one MAC per line. Its own file rather
/// than a section of `paired.toml`: two independent writers of that file would
/// silently drop each other's tables, since each parses it into its own shape.
pub struct PeerStore {
    macs: Vec<String>,
}

/// The texts that a list of strings holds.
pub open spec fn strings(v: Seq<String>) -> Seq<Seq<char>> {
    Seq::new(v.len(), |i: int| v[i]@)
}

impl View for PeerStore {
    type V = Seq<Seq<char>>;

    closed spec fn view(&self) -> Seq<Seq<char>> {
        strings(self.macs@)
    }
}

/// The peers that the lines from `i` on name. Blank lines and comments name
/// none.
pub open spec fn peers_from(ls: Seq<Seq<char>>, i: int) -> Seq<Seq<char>>
    decreases ls.len() - i,
{
    if i >= ls.len() {
        Seq::empty()
    } else {
        let l = trim(ls[i]);
        if l.len() > 0 && l[0] != '#' {
            seq![lowered(l)] + peers_from(ls, i + 1)
        } else {
            peers_from(ls, i + 1)
        }
    }
}

/// The texts from `i` on with a line feed between them.
pub open spec fn lined(ts: Seq<Seq<char>>, i: int) -> Seq<char>
    decreases ts.len() - i,
{
    if i >= ts.len() {
        Seq::empty()
    } else if i == ts.len() - 1 {
        ts[i]
    } else {
        ts[i] + "\n"@ + lined(ts, i + 1)
    }
}

/// The file that remembers peers.
pub open spec fn peers_text(macs: Seq<Seq<char>>) -> Seq<char> {
    "# Miracast peers that have completed pairing.\n"@ + lined(macs, 0) + "\n"@
}

impl PeerStore {
    /// The peers that a file names.
    pub fn load(text: &str) -> (s: Self)
        ensures
            s@ == peers_from(lines(text@), 0),
    {
        let a = to_chars(text);
        let ls = lines_of(&a);
        let ghost all = lines(text@);
        let mut macs: Vec<String> = Vec::new();
        let mut i: usize = 0;
        assert(strings(macs@) + peers_from(all, 0) =~= peers_from(all, 0));
        while i < ls.len()
            invariant
                i <= ls@.len(),
                texts(ls@) == all,
                strings(macs@) + peers_from(all, i as int) == peers_from(all, 0),
            decreases ls@.len() - i,
        {
            assert(all[i as int] == ls@[i as int]@);
            let l = trim_of(&ls[i]);
            if l.len() > 0 && l[0] != '#' {
                let ghost before = strings(macs@);
                macs.push(to_string(&lower_of(l)));
                assert(strings(macs@) =~= before.push(lowered(l@)));
                assert(strings(macs@) + peers_from(all, i + 1) =~= before + peers_from(
                    all,
                    i as int,
                ));
            }
            i = i + 1;
        }
        let s = PeerStore { macs };
        assert(s@ =~= peers_from(all, 0));
        s
    }

    pub fn contains(&self, mac: &str) -> (r: bool)
        ensures
            r == self@.contains(lowered(mac@)),
    {
        let wanted = lower_of(&to_chars(mac));
        let mut i: usize = 0;
        while i < self.macs.len()
            invariant
                i <= self.macs@.len(),
                wanted@ == lowered(mac@),
                forall|j: int| 0 <= j < i ==> self@[j] != lowered(mac@),
            decreases self.macs@.len() - i,
        {
            assert(self@[i as int] == self.macs@[i as int]@);
            if same(&to_chars(&self.macs[i]), &wanted) {
                assert(self@[i as int] == lowered(mac@));
                return true;
            }
            i = i + 1;
        }
        false
    }

    /// Remembers a peer. Returns the file to write, unless the peer was already
    /// known.
    pub fn remember(&mut self, mac: &str) -> (r: Option<String>)
        ensures
            r is None <==> old(self)@.contains(lowered(mac@)),
            r is None ==> final(self)@ == old(self)@,
            r matches Some(t) ==> final(self)@ == old(self)@.push(lowered(mac@)) && t@
                == peers_text(final(self)@),
    {
        if self.contains(mac) {
            return None;
        }
        let known = to_string(&lower_of(&to_chars(mac)));
        self.macs.push(known);
        assert(self@ =~= old(self)@.push(lowered(mac@)));
        let ghost all = self@;
        let mut s: Vec<char> = Vec::new();
        push_str(&mut s, "# Miracast peers that have completed pairing.\n");
        let ghost head = s@;
        let mut i: usize = 0;
        while i < self.macs.len()
            invariant
                i <= self.macs@.len(),
                all == self@,
                s@ + lined(all, i as int) == head + lined(all, 0),
            decreases self.macs@.len() - i,
        {
            let ghost before = s@;
            assert(all[i as int] == self.macs@[i as int]@);
            push_str(&mut s, &self.macs[i]);
            if i + 1 < self.macs.len() {
                push_str(&mut s, "\n");
            }
            assert(s@ + lined(all, i + 1) =~= before + lined(all, i as int));
            i = i + 1;
        }
        assert(s@ =~= head + lined(all, 0));
        push_str(&mut s, "\n");
        assert(s@ =~= peers_text(all));
        Some(to_string(&s))
    }
}

// ---- serving a group ----

/// What the loop that owns the sockets has to do.
#[derive(Debug)]
pub enum ServeAction {
    /// Hand this to the receiver.
    Out(SinkOut),
    /// Send this command to the supplicant.
    Say(String),
    /// Write this file of peers.
    WritePeers(String),
    /// Broadcast this reply on the group interface.
    SendDhcp(Vec<u8>),
    /// Write this to the control connection.
    WriteRtsp {
        text: String,
        /// Whether something that comes after it in the same batch ends the
        /// session, so that a failure to write this is not the last word.
        ends_later: bool,
    },
    /// Give the display back.
    Release,
    /// This group is done with.
    Finish,
}

#[verifier::ext_equal]
pub enum ServeActionView {
    Out(SinkOutView),
    Say(Seq<char>),
    WritePeers(Seq<char>),
    SendDhcp(Seq<u8>),
    WriteRtsp { text: Seq<char>, ends_later: bool },
    Release,
    Finish,
}

impl View for ServeAction {
    type V = ServeActionView;

    open spec fn view(&self) -> ServeActionView {
        match self {
            ServeAction::Out(o) => ServeActionView::Out(o@),
            ServeAction::Say(s) => ServeActionView::Say(s@),
            ServeAction::WritePeers(s) => ServeActionView::WritePeers(s@),
            ServeAction::SendDhcp(b) => ServeActionView::SendDhcp(b@),
            ServeAction::WriteRtsp { text, ends_later } => ServeActionView::WriteRtsp {
                text: text@,
                ends_later: *ends_later,
            },
            ServeAction::Release => ServeActionView::Release,
            ServeAction::Finish => ServeActionView::Finish,
        }
    }
}

/// What a list of actions says.
pub open spec fn actions(v: Seq<ServeAction>) -> Seq<ServeActionView> {
    Seq::new(v.len(), |i: int| v[i]@)
}

/// One group, from its first client to its end.
pub struct Service {
    rtp_port: u16,
    peers: PeerStore,
    session: Option<Session>,
    held: bool,
    ended: Option<String>,
}

#[verifier::ext_equal]
pub struct ServiceState {
    pub rtp_port: u16,
    pub peers: Seq<Seq<char>>,
    pub session: Option<SessionState>,
    /// Whether the display is ours.
    pub held: bool,
    /// Why the session is over, once it is.
    pub ended: Option<Seq<char>>,
}

impl View for Service {
    type V = ServiceState;

    closed spec fn view(&self) -> ServiceState {
        ServiceState {
            rtp_port: self.rtp_port,
            peers: self.peers@,
            session: match self.session {
                Some(s) => Some(s@),
                None => None,
            },
            held: self.held,
            ended: match self.ended {
                Some(s) => Some(s@),
                None => None,
            },
        }
    }
}

impl ServiceState {
    /// The display is ours exactly while there is a session.
    pub open spec fn valid(self) -> bool {
        self.held == (self.session is Some)
    }
}

/// Giving the display back, if it is ours, and ending.
pub open spec fn finishing(s: ServiceState) -> Seq<ServeActionView> {
    if s.held {
        seq![ServeActionView::Release, ServeActionView::Finish]
    } else {
        seq![ServeActionView::Finish]
    }
}

/// What the end of a pass comes to.
pub open spec fn pass_over(s: ServiceState) -> Seq<ServeActionView> {
    match s.ended {
        Some(reason) => seq![ServeActionView::Out(SinkOutView::Ended(reason))] + finishing(s),
        None => Seq::empty(),
    }
}

/// What a supplicant event comes to: pairing, and the peer going away.
pub open spec fn radio_met(s: ServiceState, e: EventView, entropy: Seq<u8>) -> (
    ServiceState,
    Seq<ServeActionView>,
) {
    match e {
        EventView::ProvisionRequest { .. } => {
            // Provisioning only happens when the peer has no stored
            // credentials: the persistent group lets a returning PC back in.
            let pin = pin_text(be32_at(entropy, 0) as u32);
            (
                s,
                seq![
                    ServeActionView::Out(SinkOutView::Pin(pin)),
                    ServeActionView::Say("WPS_PIN any "@ + pin),
                ],
            )
        },
        EventView::WpsFail => (
            s,
            seq![ServeActionView::Out(SinkOutView::Ended("pairing failed"@))],
        ),
        EventView::ClientConnected { mac } => if s.peers.contains(lowered(mac)) {
            (s, Seq::empty())
        } else {
            let peers = s.peers.push(lowered(mac));
            (
                ServiceState { peers, ..s },
                seq![ServeActionView::WritePeers(peers_text(peers))],
            )
        },
        EventView::ClientDisconnected { .. } | EventView::GroupRemoved { .. } => (
            s,
            if s.held {
                seq![
                    ServeActionView::Release,
                    ServeActionView::Out(SinkOutView::Ended("peer disconnected"@)),
                    ServeActionView::Finish,
                ]
            } else {
                seq![
                    ServeActionView::Out(SinkOutView::Ended("peer disconnected"@)),
                    ServeActionView::Finish,
                ]
            },
        ),
        EventView::WpsSuccess | EventView::GroupStarted { .. } => (s, Seq::empty()),
    }
}

/// Whether one of the events from `i` on ends the session.
pub open spec fn ends_from(es: Seq<SinkEventView>, i: int) -> bool {
    exists|j: int| i <= j < es.len() && (#[trigger] es[j]) is Ended
}

/// What one session event comes to: bytes on the wire or an event for the
/// receiver; an end is noted, and acted on when the pass is over.
pub open spec fn dispatched(ended: Option<Seq<char>>, e: SinkEventView, ends_later: bool) -> (
    Option<Seq<char>>,
    Seq<ServeActionView>,
) {
    match e {
        SinkEventView::SendRtsp(text) => (
            ended,
            seq![ServeActionView::WriteRtsp { text, ends_later }],
        ),
        SinkEventView::Video { data, pts_us } => (
            ended,
            seq![ServeActionView::Out(SinkOutView::Video { data, pts_us })],
        ),
        SinkEventView::Audio { data, pts_us } => (
            ended,
            seq![ServeActionView::Out(SinkOutView::Audio { data, pts_us })],
        ),
        SinkEventView::Started(_) => (ended, seq![ServeActionView::Out(SinkOutView::Started)]),
        SinkEventView::Ended(reason) => (Some(reason), Seq::empty()),
    }
}

/// What the session events from `i` on come to.
pub open spec fn dispatched_from(ended: Option<Seq<char>>, es: Seq<SinkEventView>, i: int) -> (
    Option<Seq<char>>,
    Seq<ServeActionView>,
)
    decreases es.len() - i,
{
    if i >= es.len() {
        (ended, Seq::empty())
    } else {
        let (x, out) = dispatched(ended, es[i], ends_from(es, i + 1));
        let (y, more) = dispatched_from(x, es, i + 1);
        (y, out + more)
    }
}

/// Why the session is over once a write has failed.
pub open spec fn write_failed(ended: Option<Seq<char>>, error: Seq<char>, ends_later: bool) -> Option<
    Seq<char>,
> {
    if ends_later {
        ended
    } else {
        Some("RTSP write: "@ + error)
    }
}

/// What a step of the session comes to.
pub open spec fn session_stepped(s: ServiceState, step: (SessionState, Seq<SinkEventView>)) -> (
    ServiceState,
    Seq<ServeActionView>,
) {
    let (ended, out) = dispatched_from(s.ended, step.1, 0);
    (ServiceState { session: Some(step.0), ended, ..s }, out)
}

/// What the passing of time comes to for a session.
pub open spec fn session_ticked(s: SessionState, now: Instant) -> (
    SessionState,
    Seq<SinkEventView>,
) {
    let (n, acts) = ticked(s.negotiation, now);
    acted_from(SessionState { negotiation: n, ..s }, acts, 0)
}

impl Service {
    /// A service with nobody connected.
    pub fn new(rtp_port: u16, peers: PeerStore) -> (s: Self)
        ensures
            s@ == (ServiceState {
                rtp_port,
                peers: peers@,
                session: None,
                held: false,
                ended: None,
            }),
            s@.valid(),
    {
        Service { rtp_port, peers, session: None, held: false, ended: None }
    }

    /// Whether a connection may be taken: one at a time.
    pub fn wants_connection(&self) -> (r: bool)
        ensures
            r == (self@.session is None),
    {
        self.session.is_none()
    }

    /// Whether a peer has completed pairing before.
    pub fn knows(&self, mac: &str) -> (r: bool)
        ensures
            r == self@.peers.contains(lowered(mac@)),
    {
        self.peers.contains(mac)
    }

    /// The sink is being stopped.
    pub fn on_stop(&self) -> (out: Vec<ServeAction>)
        ensures
            actions(out@) == finishing(self@),
    {
        let mut out: Vec<ServeAction> = Vec::new();
        if self.held {
            out.push(ServeAction::Release);
        }
        out.push(ServeAction::Finish);
        assert(actions(out@) =~= finishing(self@));
        out
    }

    /// A supplicant event. `entropy` is four random bytes, for a PIN.
    pub fn on_radio(&mut self, e: &p2p::Event, entropy: &[u8; 4]) -> (out: Vec<ServeAction>)
        ensures
            (final(self)@, actions(out@)) == radio_met(old(self)@, e@, entropy@),
    {
        let mut out: Vec<ServeAction> = Vec::new();
        match e {
            p2p::Event::ProvisionRequest { .. } => {
                let pin = generate_pin(entropy);
                let say = Command::wps_pin(&pin);
                out.push(ServeAction::Out(SinkOut::Pin(pin)));
                out.push(ServeAction::Say(say));
            },
            p2p::Event::WpsSuccess => {},
            p2p::Event::WpsFail => {
                out.push(ServeAction::Out(SinkOut::Ended("pairing failed".to_owned())));
            },
            p2p::Event::ClientConnected { mac } => {
                if let Some(text) = self.peers.remember(mac) {
                    out.push(ServeAction::WritePeers(text));
                }
            },
            p2p::Event::ClientDisconnected { .. } | p2p::Event::GroupRemoved { .. } => {
                if self.held {
                    out.push(ServeAction::Release);
                }
                out.push(ServeAction::Out(SinkOut::Ended("peer disconnected".to_owned())));
                out.push(ServeAction::Finish);
            },
            p2p::Event::GroupStarted { .. } => {},
        }
        assert(actions(out@) =~= radio_met(old(self)@, e@, entropy@).1);
        out
    }

    /// A datagram on the DHCP socket. One lease, one client, no state to keep.
    pub fn on_dhcp(&self, datagram: &[u8]) -> (out: Vec<ServeAction>)
        ensures
            actions(out@) == dhcp_met(datagram@),
    {
        let mut out: Vec<ServeAction> = Vec::new();
        if let Some(req) = dhcp::parse(datagram) {
            let lease = default_lease();
            if let Some(reply) = dhcp::reply(&req, &lease) {
                out.push(ServeAction::SendDhcp(reply));
            }
        }
        assert(actions(out@) =~= dhcp_met(datagram@));
        out
    }

    /// A connection was accepted, and the display arbiter was asked for the
    /// screen. Returns whether the connection is taken; it is refused when the
    /// display is busy.
    pub fn on_accepted(&mut self, acquired: bool, entropy: &[u8; 4]) -> (taken: bool)
        requires
            old(self)@.session is None,
        ensures
            taken == acquired,
            !acquired ==> final(self)@ == old(self)@,
            acquired ==> final(self)@ == (ServiceState {
                session: Some(
                    SessionState::init(
                        capabilities_of(old(self)@.rtp_port),
                        session_id_text(entropy@),
                    ),
                ),
                held: true,
                ..old(self)@
            }),
    {
        if !acquired {
            return false;
        }
        self.held = true;
        self.session = Some(Session::new(capabilities(self.rtp_port), session_id(entropy)));
        true
    }

    /// Bytes from the control connection.
    pub fn on_rtsp_bytes(&mut self, bytes: &[u8], now: Instant) -> (out: Vec<ServeAction>)
        ensures
            match old(self)@.session {
                Some(s) => (final(self)@, actions(out@)) == session_stepped(
                    old(self)@,
                    received(s, bytes@, now),
                ),
                None => final(self)@ == old(self)@ && out@.len() == 0,
            },
    {
        match self.session.take() {
            None => Vec::new(),
            Some(mut s) => {
                let es = s.on_rtsp_bytes_at(bytes, now);
                self.session = Some(s);
                self.dispatch(es)
            },
        }
    }

    /// The source closed the control connection.
    pub fn on_rtsp_closed(&mut self)
        ensures
            final(self)@ == (ServiceState {
                ended: Some("source closed the connection"@),
                ..old(self)@
            }),
    {
        self.ended = Some("source closed the connection".to_owned());
    }

    /// Reading from the control connection failed.
    pub fn on_rtsp_read_error(&mut self, error: &str)
        ensures
            final(self)@ == (ServiceState { ended: Some("RTSP read: "@ + error@), ..old(self)@ }),
    {
        self.ended = Some(noted("RTSP read: ", error));
    }

    /// Writing to the control connection failed. What ends the session later in
    /// the same batch has the last word.
    pub fn on_rtsp_write_error(&mut self, error: &str, ends_later: bool)
        ensures
            final(self)@ == (ServiceState {
                ended: write_failed(old(self)@.ended, error@, ends_later),
                ..old(self)@
            }),
    {
        if !ends_later {
            self.ended = Some(noted("RTSP write: ", error));
        }
    }

    /// A datagram on the media socket.
    pub fn on_rtp_datagram(&mut self, datagram: &[u8], now: Instant) -> (out: Vec<ServeAction>)
        ensures
            match old(self)@.session {
                Some(s) => (final(self)@, actions(out@)) == session_stepped(
                    old(self)@,
                    media_received(s, datagram@, now),
                ),
                None => final(self)@ == old(self)@ && out@.len() == 0,
            },
    {
        match self.session.take() {
            None => Vec::new(),
            Some(mut s) => {
                let es = s.on_rtp_datagram_at(datagram, now);
                self.session = Some(s);
                self.dispatch(es)
            },
        }
    }

    /// The decoder lost its reference frame. Nobody being connected, the notice
    /// is stale and dropped.
    pub fn on_decode_error(&mut self, now: Instant) -> (out: Vec<ServeAction>)
        ensures
            match old(self)@.session {
                Some(s) => (final(self)@, actions(out@)) == session_stepped(
                    old(self)@,
                    keyframe_wished(s, now),
                ),
                None => final(self)@ == old(self)@ && out@.len() == 0,
            },
    {
        match self.session.take() {
            None => Vec::new(),
            Some(mut s) => {
                let es = s.note_decode_error(now);
                self.session = Some(s);
                self.dispatch(es)
            },
        }
    }

    /// Time passes.
    pub fn on_tick(&mut self, now: Instant) -> (out: Vec<ServeAction>)
        ensures
            match old(self)@.session {
                Some(s) => (final(self)@, actions(out@)) == session_stepped(
                    old(self)@,
                    session_ticked(s, now),
                ),
                None => final(self)@ == old(self)@ && out@.len() == 0,
            },
    {
        match self.session.take() {
            None => Vec::new(),
            Some(mut s) => {
                let es = s.tick(now);
                self.session = Some(s);
                self.dispatch(es)
            },
        }
    }

    /// A pass over the sockets is over. If the session ended in it, the receiver
    /// is told, the display is given back, and the group with it: the source
    /// expects a fresh advertisement, and this clears any half-open radio state.
    pub fn end_of_pass(&self) -> (out: Vec<ServeAction>)
        ensures
            actions(out@) == pass_over(self@),
    {
        let mut out: Vec<ServeAction> = Vec::new();
        if let Some(reason) = &self.ended {
            out.push(ServeAction::Out(SinkOut::Ended(reason.clone())));
            if self.held {
                out.push(ServeAction::Release);
            }
            out.push(ServeAction::Finish);
        }
        assert(actions(out@) =~= pass_over(self@));
        out
    }

    /// Turns session events into bytes on the wire or events for the receiver.
    fn dispatch(&mut self, es: Vec<SinkEvent>) -> (out: Vec<ServeAction>)
        ensures
            final(self)@ == (ServiceState {
                ended: dispatched_from(old(self)@.ended, events(es@), 0).0,
                ..old(self)@
            }),
            actions(out@) == dispatched_from(old(self)@.ended, events(es@), 0).1,
    {
        let ghost all = events(es@);
        let ghost whole = dispatched_from(old(self)@.ended, all, 0);
        let mut es = es;
        let mut out: Vec<ServeAction> = Vec::new();
        assert(actions(out@) + whole.1 =~= whole.1);
        while es.len() > 0
            invariant
                self@ == (ServiceState { ended: self@.ended, ..old(self)@ }),
                dispatched_from(self@.ended, events(es@), 0).0 == whole.0,
                actions(out@) + dispatched_from(self@.ended, events(es@), 0).1 == whole.1,
            decreases es@.len(),
        {
            let ghost left = events(es@);
            let ghost given = actions(out@);
            let ghost before = self@.ended;
            let e = es.remove(0);
            let ghost first = e@;
            assert(first == left[0]);
            assert(events(es@) =~= left.drop_first());
            let ends_later = any_ends(&es);
            proof {
                lemma_ends_shift(left, 1, events(es@), 0);
            }
            match e {
                SinkEvent::SendRtsp(text) => {
                    out.push(ServeAction::WriteRtsp { text, ends_later });
                },
                SinkEvent::Video { data, pts_us } => {
                    out.push(ServeAction::Out(SinkOut::Video { data, pts_us }));
                },
                SinkEvent::Audio { data, pts_us } => {
                    out.push(ServeAction::Out(SinkOut::Audio { data, pts_us }));
                },
                SinkEvent::Started(_) => {
                    out.push(ServeAction::Out(SinkOut::Started));
                },
                SinkEvent::Ended(reason) => {
                    self.ended = Some(reason.to_owned());
                },
            }
            assert(actions(out@) =~= given + dispatched(before, first, ends_later).1);
            assert(self@.ended == dispatched(before, first, ends_later).0);
            proof {
                lemma_dispatched_shift(self@.ended, left, 1, events(es@), 0);
            }
            assert(actions(out@) + dispatched_from(self@.ended, events(es@), 0).1 =~= given
                + dispatched_from(before, left, 0).1);
        }
        assert(actions(out@) =~= whole.1);
        out
    }
}

/// What a datagram on the DHCP socket comes to.
pub open spec fn dhcp_met(datagram: Seq<u8>) -> Seq<ServeActionView> {
    match dhcp::parsed(datagram) {
        Some(r) => match dhcp::answered(r, lease_of()) {
            Some(reply) => seq![ServeActionView::SendDhcp(reply)],
            None => Seq::empty(),
        },
        None => Seq::empty(),
    }
}

/// The one lease.
pub open spec fn lease_of() -> dhcp::Lease {
    dhcp::Lease {
        server: dhcp::Ipv4Addr { a: 192, b: 168, c: 173, d: 1 },
        client: dhcp::Ipv4Addr { a: 192, b: 168, c: 173, d: 2 },
        netmask: dhcp::Ipv4Addr { a: 255, b: 255, c: 255, d: 248 },
        lease_secs: 3600,
    }
}

/// The session identifier for four random bytes.
pub open spec fn session_id_text(b: Seq<u8>) -> Seq<char> {
    zero_fill(hex(b[0] as nat), 2) + zero_fill(hex(b[1] as nat), 2) + zero_fill(
        hex(b[2] as nat),
        2,
    ) + zero_fill(hex(b[3] as nat), 2)
}

fn noted(what: &str, error: &str) -> (r: String)
    ensures
        r@ == what@ + error@,
{
    let mut s: Vec<char> = Vec::new();
    push_str(&mut s, what);
    push_str(&mut s, error);
    assert(s@ =~= what@ + error@);
    to_string(&s)
}

/// Whether one of some events ends the session.
fn any_ends(es: &Vec<SinkEvent>) -> (r: bool)
    ensures
        r == ends_from(events(es@), 0),
{
    let mut i: usize = 0;
    while i < es.len()
        invariant
            i <= es@.len(),
            forall|j: int| 0 <= j < i ==> !((#[trigger] events(es@)[j]) is Ended),
        decreases es@.len() - i,
    {
        assert(events(es@)[i as int] == es@[i as int]@);
        if let SinkEvent::Ended(_) = &es[i] {
            assert(events(es@)[i as int] is Ended);
            return true;
        }
        i = i + 1;
    }
    false
}

proof fn lemma_ends_shift(a: Seq<SinkEventView>, i: int, b: Seq<SinkEventView>, j: int)
    requires
        0 <= i,
        0 <= j,
        a.len() - i == b.len() - j,
        forall|k: int| 0 <= k < b.len() - j ==> a[i + k] == #[trigger] b[j + k],
    ensures
        ends_from(a, i) == ends_from(b, j),
{
    if ends_from(a, i) {
        let k = choose|k: int| i <= k < a.len() && (#[trigger] a[k]) is Ended;
        assert(b[j + (k - i)] == a[i + (k - i)]);
        assert(b[j + (k - i)] is Ended);
    }
    if ends_from(b, j) {
        let k = choose|k: int| j <= k < b.len() && (#[trigger] b[k]) is Ended;
        assert(a[i + (k - j)] == b[j + (k - j)]);
        assert(a[i + (k - j)] is Ended);
    }
}

proof fn lemma_dispatched_shift(
    ended: Option<Seq<char>>,
    a: Seq<SinkEventView>,
    i: int,
    b: Seq<SinkEventView>,
    j: int,
)
    requires
        0 <= i,
        0 <= j,
        a.len() - i == b.len() - j,
        forall|k: int| 0 <= k < b.len() - j ==> a[i + k] == #[trigger] b[j + k],
    ensures
        dispatched_from(ended, a, i) == dispatched_from(ended, b, j),
    decreases a.len() - i,
{
    if i < a.len() {
        assert(a[i + 0] == b[j + 0]);
        assert forall|k: int| 0 <= k < b.len() - (j + 1) implies a[i + 1 + k] == #[trigger] b[j + 1
            + k] by {
            assert(a[i + (k + 1)] == b[j + (k + 1)]);
        }
        lemma_ends_shift(a, i + 1, b, j + 1);
        lemma_dispatched_shift(
            dispatched(ended, a[i], ends_from(a, i + 1)).0,
            a,
            i + 1,
            b,
            j + 1,
        );
    }
}

// ---- laws ----

/// Whether some actions do a thing exactly once, at a place among them.
pub open spec fn done_once_at(acts: Seq<ServeActionView>, a: ServeActionView, k: int) -> bool {
    &&& 0 <= k < acts.len()
    &&& forall|i: int| 0 <= i < acts.len() ==> ((#[trigger] acts[i]) == a <==> i == k)
}

/// Whether some actions neither give the display back nor end the group.
pub open spec fn carries_on(acts: Seq<ServeActionView>) -> bool {
    forall|i: int|
        0 <= i < acts.len() ==> (#[trigger] acts[i]) != ServeActionView::Release && acts[i]
            != ServeActionView::Finish
}

/// Whether some actions end the group, once and last of all, and give the
/// display back before that: once if it was ours, and not at all otherwise.
pub open spec fn gives_back(s: ServiceState, acts: Seq<ServeActionView>) -> bool {
    &&& done_once_at(acts, ServeActionView::Finish, acts.len() - 1)
    &&& s.held ==> exists|k: int|
        k < acts.len() - 1 && #[trigger] done_once_at(acts, ServeActionView::Release, k)
    &&& !s.held ==> !acts.contains(ServeActionView::Release)
}

proof fn lemma_released_at(s: ServiceState, acts: Seq<ServeActionView>, k: int)
    requires
        s.held,
        0 <= k < acts.len() - 1,
        acts[k] == ServeActionView::Release,
        acts.last() == ServeActionView::Finish,
        forall|i: int|
            0 <= i < acts.len() - 1 && i != k ==> (#[trigger] acts[i]) != ServeActionView::Release
                && acts[i] != ServeActionView::Finish,
    ensures
        gives_back(s, acts),
{
    assert(done_once_at(acts, ServeActionView::Release, k));
}

/// However a group ends, the display is given back exactly once, before the end,
/// if it was ours, and not otherwise: when the sink is stopped, when the peer
/// leaves, and when the session ends. Nothing else that happens gives it back.
pub proof fn law_the_display_is_given_back(
    s: ServiceState,
    e: EventView,
    entropy: Seq<u8>,
    step: (SessionState, Seq<SinkEventView>),
    datagram: Seq<u8>,
)
    ensures
        gives_back(s, finishing(s)),
        e is ClientDisconnected || e is GroupRemoved ==> gives_back(s, radio_met(s, e, entropy).1),
        !(e is ClientDisconnected || e is GroupRemoved) ==> carries_on(
            radio_met(s, e, entropy).1,
        ),
        s.ended is Some ==> gives_back(s, pass_over(s)),
        s.ended is None ==> carries_on(pass_over(s)),
        carries_on(session_stepped(s, step).1),
        carries_on(dhcp_met(datagram)),
{
    if s.held {
        lemma_released_at(s, finishing(s), 0);
    }
    if e is ClientDisconnected || e is GroupRemoved {
        if s.held {
            lemma_released_at(s, radio_met(s, e, entropy).1, 0);
        }
    }
    if s.ended is Some && s.held {
        lemma_released_at(s, pass_over(s), 1);
    }
    lemma_dispatch_carries_on(s.ended, step.1, 0);
}

proof fn lemma_dispatch_carries_on(ended: Option<Seq<char>>, es: Seq<SinkEventView>, i: int)
    ensures
        carries_on(dispatched_from(ended, es, i).1),
    decreases es.len() - i,
{
    if i < es.len() {
        let x = dispatched(ended, es[i], ends_from(es, i + 1)).0;
        lemma_dispatch_carries_on(x, es, i + 1);
    }
}

/// Why the session is over if the events from `i` on are met one by one, and the
/// writes among them turn out as they do: what ends it last stands.
pub open spec fn ended_in_turn(
    ended: Option<Seq<char>>,
    es: Seq<SinkEventView>,
    fails: spec_fn(int) -> Option<Seq<char>>,
    i: int,
) -> Option<Seq<char>>
    decreases es.len() - i,
{
    if i >= es.len() {
        ended
    } else {
        let x = match es[i] {
            SinkEventView::SendRtsp(_) => match fails(i) {
                Some(error) => Some("RTSP write: "@ + error),
                None => ended,
            },
            SinkEventView::Ended(reason) => Some(reason),
            _ => ended,
        };
        ended_in_turn(x, es, fails, i + 1)
    }
}

/// Why it is over once the writes among the events from `i` on have been made,
/// and those that failed were reported.
pub open spec fn ended_after_writes(
    ended: Option<Seq<char>>,
    es: Seq<SinkEventView>,
    fails: spec_fn(int) -> Option<Seq<char>>,
    i: int,
) -> Option<Seq<char>>
    decreases es.len() - i,
{
    if i >= es.len() {
        ended
    } else {
        let x = match (es[i], fails(i)) {
            (SinkEventView::SendRtsp(_), Some(error)) => write_failed(
                ended,
                error,
                ends_from(es, i + 1),
            ),
            _ => ended,
        };
        ended_after_writes(x, es, fails, i + 1)
    }
}

proof fn lemma_ends_here_or_later(es: Seq<SinkEventView>, i: int)
    requires
        0 <= i < es.len(),
    ensures
        ends_from(es, i) <==> es[i] is Ended || ends_from(es, i + 1),
{
    if ends_from(es, i) && !(es[i] is Ended) {
        let k = choose|k: int| i <= k < es.len() && (#[trigger] es[k]) is Ended;
        assert(i + 1 <= k);
    }
    if ends_from(es, i + 1) {
        let k = choose|k: int| i + 1 <= k < es.len() && (#[trigger] es[k]) is Ended;
        assert(es[k] is Ended);
    }
}

proof fn lemma_last_end(
    x: Option<Seq<char>>,
    y: Option<Seq<char>>,
    es: Seq<SinkEventView>,
    fails: spec_fn(int) -> Option<Seq<char>>,
    i: int,
)
    requires
        0 <= i,
        ends_from(es, i) || x == y,
    ensures
        ended_in_turn(x, es, fails, i) == ended_after_writes(
            dispatched_from(y, es, i).0,
            es,
            fails,
            i,
        ),
        !ends_from(es, i) ==> dispatched_from(y, es, i).0 == y,
    decreases es.len() - i,
{
    if i < es.len() {
        lemma_ends_here_or_later(es, i);
        let later = ends_from(es, i + 1);
        let x1 = match es[i] {
            SinkEventView::SendRtsp(_) => match fails(i) {
                Some(error) => Some("RTSP write: "@ + error),
                None => x,
            },
            SinkEventView::Ended(reason) => Some(reason),
            _ => x,
        };
        let y1 = dispatched(y, es[i], later).0;
        if later {
            lemma_last_end(x1, y1, es, fails, i + 1);
        } else {
            // what is noted of the rest is nothing
            lemma_last_end(x1, x1, es, fails, i + 1);
            lemma_last_end(y1, y1, es, fails, i + 1);
        }
    }
}

/// However the writes of a batch turn out, the session is over for the reason
/// that came last in it, as if each event had been met in its turn.
pub proof fn law_the_last_end_stands(
    ended: Option<Seq<char>>,
    es: Seq<SinkEventView>,
    fails: spec_fn(int) -> Option<Seq<char>>,
)
    ensures
        ended_after_writes(dispatched_from(ended, es, 0).0, es, fails, 0) == ended_in_turn(
            ended,
            es,
            fails,
            0,
        ),
{
    lemma_last_end(ended, ended, es, fails, 0);
}

/// The display is ours exactly while there is a session, whatever happens.
pub proof fn law_the_display_goes_with_the_session(
    s: ServiceState,
    e: EventView,
    entropy: Seq<u8>,
    step: (SessionState, Seq<SinkEventView>),
)
    requires
        s.valid(),
    ensures
        radio_met(s, e, entropy).0.valid(),
        s.session is Some ==> session_stepped(s, step).0.valid(),
{
}

/// Whether a text can stand on a line of the peers' file and be read as itself.
pub open spec fn readable_mac(m: Seq<char>) -> bool {
    m.len() > 0 && m[0] != '#' && tight(m) && one_line(m) && lowered(m) == m
}

proof fn lemma_lined_is_ended(ts: Seq<Seq<char>>, i: int)
    requires
        0 <= i < ts.len(),
    ensures
        lined(ts, i) + "\n"@ == ended(ts, i),
    decreases ts.len() - i,
{
    if i == ts.len() - 1 {
        assert(ended(ts, i + 1) =~= Seq::empty());
        assert(lined(ts, i) + "\n"@ =~= ended(ts, i));
    } else {
        lemma_lined_is_ended(ts, i + 1);
        assert(lined(ts, i) + "\n"@ =~= ts[i] + "\n"@ + (lined(ts, i + 1) + "\n"@));
    }
}

proof fn lemma_peers_of_lines(macs: Seq<Seq<char>>, ls: Seq<Seq<char>>, i: int)
    requires
        0 <= i <= macs.len(),
        ls.len() == macs.len() + 1,
        forall|k: int| 0 <= k < macs.len() ==> readable_mac(#[trigger] macs[k]),
        forall|k: int| 0 <= k < macs.len() ==> ls[k + 1] == #[trigger] macs[k],
    ensures
        peers_from(ls, i + 1) == macs.skip(i),
    decreases macs.len() - i,
{
    if i < macs.len() {
        assert(readable_mac(macs[i]));
        lemma_trim_of_tight(macs[i]);
        lemma_peers_of_lines(macs, ls, i + 1);
        assert(macs.skip(i) =~= seq![macs[i]] + macs.skip(i + 1));
    } else {
        assert(macs.skip(i) =~= Seq::empty());
    }
}

/// Peers survive a reload: the file that remembers them is read as the same
/// peers in the same order.
pub proof fn law_peers_survive_a_reload(macs: Seq<Seq<char>>)
    requires
        macs.len() > 0,
        forall|k: int| 0 <= k < macs.len() ==> readable_mac(#[trigger] macs[k]),
    ensures
        peers_from(lines(peers_text(macs)), 0) == macs,
{
    let title = "# Miracast peers that have completed pairing."@;
    reveal_strlit("# Miracast peers that have completed pairing.\n");
    reveal_strlit("# Miracast peers that have completed pairing.");
    reveal_strlit("\n");
    assert("# Miracast peers that have completed pairing.\n"@ =~= title + "\n"@);
    let all = seq![title] + macs;
    lemma_lined_is_ended(macs, 0);
    lemma_ended_tail(title, macs);
    assert(peers_text(macs) =~= title + "\n"@ + (lined(macs, 0) + "\n"@));
    assert forall|k: int| 0 <= k < all.len() implies one_line(#[trigger] all[k]) by {
        if k > 0 {
            assert(all[k] == macs[k - 1]);
            assert(readable_mac(macs[k - 1]));
        } else {
            assert(one_line(title));
        }
    }
    lemma_lines_of_ended(Seq::empty(), all, 0);
    assert(Seq::<char>::empty() + ended(all, 0) =~= ended(all, 0));
    assert(all.skip(0) =~= all);
    lemma_peers_of_lines(macs, all, 0);
    assert(macs.skip(0) =~= macs);
    lemma_trim_of_tight(title);
    assert(title[0] == '#');
}

/// The lines after the first are the same lines.
proof fn lemma_ended_tail(first: Seq<char>, rest: Seq<Seq<char>>)
    ensures
        ended(seq![first] + rest, 0) == first + "\n"@ + ended(rest, 0),
{
    let all = seq![first] + rest;
    lemma_ended_from(all, rest, 0);
}

proof fn lemma_ended_from(all: Seq<Seq<char>>, rest: Seq<Seq<char>>, i: int)
    requires
        0 <= i <= rest.len(),
        all.len() == rest.len() + 1,
        forall|k: int| 0 <= k < rest.len() ==> all[k + 1] == #[trigger] rest[k],
    ensures
        ended(all, i + 1) == ended(rest, i),
    decreases rest.len() - i,
{
    if i < rest.len() {
        assert(all[i + 1] == rest[i]);
        lemma_ended_from(all, rest, i + 1);
    }
}

} // verus!
