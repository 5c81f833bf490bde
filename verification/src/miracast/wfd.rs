//! Wi-Fi Display parameters: the capability strings the sink sends in RTSP
//! bodies, and the device-information subelement it advertises in beacons.
//!
//! The wire formats are those of the Wi-Fi Display 1.1 parameter tables plus
//! the Microsoft extensions (MS-WFDPE). A wrong bit in a capability bitmap does
//! not fail loudly: the source simply picks a format that cannot be decoded,
//! or refuses to connect at all.
use vstd::prelude::*;
use crate::number::{
    dec, hex, hex_capitals, parse_dec, push_dec, push_hex_capitals, push_hex_wide, read_dec,
    zero_fill,
};
use crate::text::{
    copy, is_str, lines, lines_of, lowered, push_chars, push_str, same_but_case, split_once,
    split_once_of, texts, to_chars, to_string, trim, trim_of,
};
use crate::wire::{be16_at, read_be16};

verus! {

/// Video formats we accept. This sink advertises exactly one: 1280x720p30.
#[derive(Debug, Clone, Copy, PartialEq, Eq, Structural)]
pub struct VideoFormats {
    /// CEA resolution bitmap; bit 5 is 1280x720p30.
    pub cea: u32,
    pub vesa: u32,
    pub hh: u32,
    /// H.264 profile bitmap: 0x02 is Constrained Baseline.
    pub profile: u8,
    /// Level bitmap: 0x04 is level 3.1, which covers 720p30.
    pub level: u8,
}

impl VideoFormats {
    pub fn only_720p30() -> (v: Self)
        ensures
            v == (VideoFormats { cea: 0x20, vesa: 0, hh: 0, profile: 0x02, level: 0x04 }),
    {
        VideoFormats { cea: 0x0000_0020, vesa: 0, hh: 0, profile: 0x02, level: 0x04 }
    }
}

/// Audio formats we accept: LPCM 48 kHz 16-bit stereo only (bit 1).
#[derive(Debug, Clone, Copy, PartialEq, Eq, Structural)]
pub struct AudioCodecs {
    pub lpcm_modes: u32,
}

impl AudioCodecs {
    pub fn lpcm_48k_stereo() -> (a: Self)
        ensures
            a == (AudioCodecs { lpcm_modes: 2 }),
    {
        AudioCodecs { lpcm_modes: 0x0000_0002 }
    }
}

#[derive(Debug, Clone, Copy, PartialEq, Eq, Structural)]
pub struct ClientPorts {
    pub rtp_port: u16,
}

#[derive(Debug, Clone, Copy, PartialEq, Eq, Structural)]
pub struct Capabilities {
    pub video: VideoFormats,
    pub audio: AudioCodecs,
    pub ports: ClientPorts,
    /// Ceiling we ask the source to respect, in kbit/s (MS-WFDPE).
    pub max_bitrate_kbps: u32,
    pub latency_management: bool,
    pub format_change: bool,
}

/// A number in hexadecimal capitals, `width` digits wide.
pub open spec fn wide(n: nat, width: nat) -> Seq<char> {
    zero_fill(hex_capitals(n), width)
}

/// The line that offers video formats, without its ending.
pub open spec fn video_line(v: VideoFormats) -> Seq<char> {
    "wfd_video_formats: 40 00 "@ + wide(v.profile as nat, 2) + " "@ + wide(v.level as nat, 2)
        + " "@ + wide(v.cea as nat, 8) + " "@ + wide(v.vesa as nat, 8) + " "@ + wide(
        v.hh as nat,
        8,
    ) + " 00 0000 0000 00 none none"@
}

/// The body of an M3 response: one `name: value` per line, CRLF terminated.
pub open spec fn capabilities_text(c: Capabilities) -> Seq<char> {
    (video_line(c.video) + "\r\n"@) + ("wfd_audio_codecs: LPCM "@ + wide(
        c.audio.lpcm_modes as nat,
        8,
    ) + " 00\r\n"@) + "wfd_content_protection: none\r\n"@ + (
    "wfd_client_rtp_ports: RTP/AVP/UDP;unicast "@ + dec(c.ports.rtp_port as nat)
        + " 0 mode=play\r\n"@) + ("microsoft_max_bitrate: "@ + dec(c.max_bitrate_kbps as nat)
        + "\r\n"@) + (if c.latency_management {
        "microsoft_latency_management_capability: supported\r\n"@
    } else {
        Seq::empty()
    }) + (if c.format_change {
        "microsoft_format_change_support: supported\r\n"@
    } else {
        Seq::empty()
    })
}

fn push_video_line(s: &mut Vec<char>, v: &VideoFormats)
    ensures
        final(s)@ == old(s)@ + video_line(*v),
{
    // native: 0x40 = CEA table, index 1 (the table our single mode lives in).
    // preferred-display-mode: 00. Then profile, level, the three bitmaps,
    // latency, min-slice, slice-enc, frame-rate-control, then max hres/vres
    // ("none none" = no constraint beyond the bitmaps).
    push_str(s, "wfd_video_formats: 40 00 ");
    push_hex_capitals(s, v.profile as u64, 2);
    push_str(s, " ");
    push_hex_capitals(s, v.level as u64, 2);
    push_str(s, " ");
    push_hex_capitals(s, v.cea as u64, 8);
    push_str(s, " ");
    push_hex_capitals(s, v.vesa as u64, 8);
    push_str(s, " ");
    push_hex_capitals(s, v.hh as u64, 8);
    push_str(s, " 00 0000 0000 00 none none");
    assert(s@ =~= old(s)@ + video_line(*v));
}

/// The body of an M3 response: one `name: value` per line, CRLF terminated.
pub fn capabilities_body(c: &Capabilities) -> (r: String)
    ensures
        r@ == capabilities_text(*c),
{
    let mut s: Vec<char> = Vec::new();
    push_video_line(&mut s, &c.video);
    push_str(&mut s, "\r\n");
    push_str(&mut s, "wfd_audio_codecs: LPCM ");
    push_hex_capitals(&mut s, c.audio.lpcm_modes as u64, 8);
    push_str(&mut s, " 00\r\n");
    push_str(&mut s, "wfd_content_protection: none\r\n");
    push_str(&mut s, "wfd_client_rtp_ports: RTP/AVP/UDP;unicast ");
    push_dec(&mut s, c.ports.rtp_port as u64);
    push_str(&mut s, " 0 mode=play\r\n");
    push_str(&mut s, "microsoft_max_bitrate: ");
    push_dec(&mut s, c.max_bitrate_kbps as u64);
    push_str(&mut s, "\r\n");
    if c.latency_management {
        push_str(&mut s, "microsoft_latency_management_capability: supported\r\n");
    }
    if c.format_change {
        push_str(&mut s, "microsoft_format_change_support: supported\r\n");
    }
    assert(s@ =~= capabilities_text(*c));
    to_string(&s)
}

// ---- parameters ----

/// A name and a value as text.
pub type Pair = (Seq<char>, Seq<char>);

/// The texts of a list of name-value pairs.
pub open spec fn pairs(v: Seq<(String, String)>) -> Seq<Pair> {
    Seq::new(v.len(), |i: int| (v[i].0@, v[i].1@))
}

/// The pair that a line holds. A line with no colon is a bare name.
pub open spec fn pair_of(line: Seq<char>) -> Pair {
    match split_once(line, ':') {
        Some(kv) => (trim(kv.0), trim(kv.1)),
        None => (line, Seq::empty()),
    }
}

/// The pairs that the lines from `i` on hold; blank lines hold none.
pub open spec fn parameters_from(ls: Seq<Seq<char>>, i: int) -> Seq<Pair>
    decreases ls.len() - i,
{
    if i >= ls.len() {
        Seq::empty()
    } else if trim(ls[i]).len() == 0 {
        parameters_from(ls, i + 1)
    } else {
        seq![pair_of(trim(ls[i]))] + parameters_from(ls, i + 1)
    }
}

/// The pairs that a parameter body holds, in order.
pub open spec fn parameters(body: Seq<char>) -> Seq<Pair> {
    parameters_from(lines(body), 0)
}

/// Splits an RTSP parameter body into `(name, value)` pairs. A line with no
/// colon (an M3 request, which asks for parameters by name) yields an empty
/// value rather than being dropped, so the caller can answer it.
pub fn parse_parameter_body(body: &str) -> (r: Vec<(String, String)>)
    ensures
        pairs(r@) == parameters(body@),
{
    let a = to_chars(body);
    let ls = lines_of(&a);
    let mut out: Vec<(String, String)> = Vec::new();
    let mut i: usize = 0;
    assert(pairs(out@) + parameters_from(lines(body@), 0) =~= parameters(body@));
    while i < ls.len()
        invariant
            i <= ls@.len(),
            texts(ls@) == lines(body@),
            pairs(out@) + parameters_from(lines(body@), i as int) == parameters(body@),
        decreases ls@.len() - i,
    {
        let l = trim_of(&ls[i]);
        assert(l@ == trim(lines(body@)[i as int]));
        if l.len() > 0 {
            let ghost before = pairs(out@);
            match split_once_of(l, ':') {
                Some((k, v)) => {
                    out.push((to_string(trim_of(k)), to_string(trim_of(v))));
                },
                None => {
                    out.push((to_string(l), String::new()));
                },
            }
            assert(pairs(out@) =~= before.push(pair_of(l@)));
            assert(pairs(out@) + parameters_from(lines(body@), i + 1) =~= before
                + parameters_from(lines(body@), i as int));
        }
        i = i + 1;
    }
    assert(pairs(out@) =~= parameters(body@));
    out
}

// ---- device information ----

#[derive(Debug, Clone, Copy, PartialEq, Eq, Structural)]
pub struct DeviceInfo {
    pub session_available: bool,
    pub rtsp_port: u16,
    pub max_throughput_mbps: u16,
}

/// The flags of a primary sink. Bits 0-1: device type, 01 = primary sink.
/// Bits 4-5: session availability, 01 = available, 00 = not available.
pub open spec fn sink_flags(available: bool) -> nat {
    if available {
        0x11
    } else {
        0x01
    }
}

/// A number in small hexadecimal digits, four wide.
pub open spec fn hex4(n: nat) -> Seq<char> {
    zero_fill(hex(n), 4)
}

/// The hex form of the subelement: a 2-byte length and the 6-byte body.
pub open spec fn subelement_text(d: DeviceInfo) -> Seq<char> {
    "0006"@ + hex4(sink_flags(d.session_available)) + hex4(d.rtsp_port as nat) + hex4(
        d.max_throughput_mbps as nat,
    )
}

/// The WFD IE device-information subelement, in the hex form
/// `wpa_supplicant`'s `WFD_SUBELEM_SET 0 <hex>` expects: a 2-byte length
/// followed by the 6-byte body.
///
/// One unbroken lowercase hex string: the supplicant parses this as a hexdump
/// and answers FAIL if it contains spaces. Lowercase because that is what
/// `wpa_cli` prints back, so a logged command can be pasted in verbatim.
pub fn device_info_subelement(d: &DeviceInfo) -> (r: String)
    ensures
        r@ == subelement_text(*d),
{
    let info: u16 = if d.session_available {
        0x0011
    } else {
        0x0001
    };
    let mut s: Vec<char> = Vec::new();
    push_str(&mut s, "0006");
    push_hex_wide(&mut s, info as u64, 4);
    push_hex_wide(&mut s, d.rtsp_port as u64, 4);
    push_hex_wide(&mut s, d.max_throughput_mbps as u64, 4);
    assert(s@ =~= subelement_text(*d));
    to_string(&s)
}

/// The Wi-Fi Alliance display OUI, and the type that marks its information
/// element among the vendor elements a device advertises.
pub const WFD_OUI: [u8; 3] = [0x50, 0x6f, 0x9a];

pub const WFD_OUI_TYPE: u8 = 10;

#[derive(Debug, Clone, Copy, PartialEq, Eq, Structural)]
pub enum DeviceKind {
    Source,
    PrimarySink,
    SecondarySink,
    DualRole,
}

/// What a device says about itself before anything connects to it: enough to
/// tell a television from a printer, and to know its port, its ceiling and
/// whether it wants content protection.
#[derive(Debug, Clone, Copy, PartialEq, Eq, Structural)]
pub struct DeviceCaps {
    pub kind: DeviceKind,
    pub session_available: bool,
    pub content_protection: bool,
    pub rtsp_port: u16,
    pub max_throughput_mbps: u16,
}

/// The device type in bits 0-1 of the flags.
pub open spec fn kind_of(info: int) -> DeviceKind {
    if info % 4 == 0 {
        DeviceKind::Source
    } else if info % 4 == 1 {
        DeviceKind::PrimarySink
    } else if info % 4 == 2 {
        DeviceKind::SecondarySink
    } else {
        DeviceKind::DualRole
    }
}

/// What the 6-byte subelement body says: flags, port and ceiling, each two
/// bytes, most significant first. Bits 4-5 of the flags are 01 when a session
/// is free to be started; bit 8 asks for content protection.
pub open spec fn device_caps(body: Seq<u8>) -> Option<DeviceCaps> {
    if body.len() < 6 {
        None
    } else {
        let info = be16_at(body, 0);
        Some(
            DeviceCaps {
                kind: kind_of(info),
                session_available: info / 16 % 4 == 1,
                content_protection: info / 256 % 2 == 1,
                rtsp_port: be16_at(body, 2) as u16,
                max_throughput_mbps: be16_at(body, 4) as u16,
            },
        )
    }
}

/// Reads the 6-byte device-information subelement body: a flags field, the
/// session-management port, and a throughput ceiling in Mbit/s.
///
/// The mirror of `device_info_subelement`, which builds the same thing for the
/// sink. One layout, both directions, so the two cannot drift apart.
pub fn parse_device_info(body: &[u8]) -> (r: Option<DeviceCaps>)
    ensures
        r == device_caps(body@),
{
    if body.len() < 6 {
        return None;
    }
    let info: u16 = read_be16(body, 0);
    let t: u16 = info % 4;
    let kind = if t == 0 {
        DeviceKind::Source
    } else if t == 1 {
        DeviceKind::PrimarySink
    } else if t == 2 {
        DeviceKind::SecondarySink
    } else {
        DeviceKind::DualRole
    };
    Some(
        DeviceCaps {
            kind,
            session_available: info / 16 % 4 == 1,
            content_protection: info / 256 % 2 == 1,
            rtsp_port: read_be16(body, 2),
            max_throughput_mbps: read_be16(body, 4),
        },
    )
}


// ---- pairing methods ----

/// WPS lives in its own information element, beside the Wi-Fi Display one.
pub const WPS_OUI: [u8; 3] = [0x00, 0x50, 0xf2];

pub const WPS_OUI_TYPE: u8 = 4;

/// How a device is willing to be paired with.
///
/// A source that only knows one ceremony can only pair with displays that
/// happen to offer it. Reading this is what lets the right one be chosen -
/// and it is read before connecting, from the same beacon the Wi-Fi Display
/// element arrives in.
#[derive(Debug, Clone, Copy, PartialEq, Eq, Structural)]
pub struct ConfigMethods(pub u16);

impl Default for ConfigMethods {
    fn default() -> (m: Self)
        ensures
            m == ConfigMethods(0),
    {
        ConfigMethods(0)
    }
}

/// Whether every bit of `bits` is set in `methods`.
pub open spec fn has_bits(methods: u16, bits: u16) -> bool {
    methods & bits == bits
}

/// The names of the methods offered, in the order display, button, keypad.
pub open spec fn method_names(methods: u16) -> Seq<Seq<char>> {
    (if has_bits(methods, 0x0008) {
        seq!["display"@]
    } else {
        seq![]
    }) + (if has_bits(methods, 0x0080) {
        seq!["push-button"@]
    } else {
        seq![]
    }) + (if has_bits(methods, 0x0100) {
        seq!["keypad"@]
    } else {
        seq![]
    })
}

/// The texts with `, ` between them.
pub open spec fn listed(names: Seq<Seq<char>>) -> Seq<char>
    decreases names.len(),
{
    if names.len() == 0 {
        Seq::empty()
    } else if names.len() == 1 {
        names[0]
    } else {
        listed(names.drop_last()) + ", "@ + names.last()
    }
}

/// The offered methods in words.
pub open spec fn described(methods: u16) -> Seq<char> {
    if method_names(methods).len() == 0 {
        "no pairing method (0x"@ + hex4(methods as nat) + ")"@
    } else {
        listed(method_names(methods))
    }
}

/// Appends a name to a list of names with `, ` between them.
fn push_name(out: &mut Vec<char>, name: &str, Ghost(before): Ghost<Seq<Seq<char>>>)
    requires
        old(out)@ == listed(before),
        forall|i: int| 0 <= i < before.len() ==> before[i].len() > 0,
    ensures
        final(out)@ == listed(before.push(name@)),
{
    let ghost after = before.push(name@);
    assert(after.drop_last() =~= before);
    if out.len() > 0 {
        assert(before.len() > 0);
        push_str(out, ", ");
    } else {
        proof {
            lemma_listed_is_not_empty(before);
        }
    }
    push_str(out, name);
    assert(out@ =~= listed(after));
}

proof fn lemma_listed_is_not_empty(names: Seq<Seq<char>>)
    requires
        forall|i: int| 0 <= i < names.len() ==> names[i].len() > 0,
    ensures
        listed(names).len() == 0 <==> names.len() == 0,
    decreases names.len(),
{
    if names.len() > 1 {
        assert(names.last().len() > 0);
    }
}

impl ConfigMethods {
    /// The device shows a PIN for someone to type in elsewhere.
    pub const DISPLAY: u16 = 0x0008;

    /// The device accepts a button press instead of a PIN.
    pub const PUSH_BUTTON: u16 = 0x0080;

    /// The device has a keypad, so it can accept a PIN typed into it.
    pub const KEYPAD: u16 = 0x0100;

    pub const PHYSICAL_PUSH_BUTTON: u16 = 0x0280;

    pub const VIRTUAL_PUSH_BUTTON: u16 = 0x0480;

    pub const VIRTUAL_DISPLAY: u16 = 0x2008;

    /// Whether every bit of `bits` is set. Composite methods such as
    /// `PHYSICAL_PUSH_BUTTON` are two bits, so a plain intersection would say
    /// yes when only half of one is present.
    pub fn has(self, bits: u16) -> (r: bool)
        ensures
            r == has_bits(self.0, bits),
    {
        self.0 & bits == bits
    }

    pub fn push_button(self) -> (r: bool)
        ensures
            r == has_bits(self.0, 0x0080),
    {
        self.has(Self::PUSH_BUTTON)
    }

    /// The device can put a PIN on its own screen for us to type.
    pub fn shows_a_pin(self) -> (r: bool)
        ensures
            r == (has_bits(self.0, 0x0008) || has_bits(self.0, 0x2008)),
    {
        self.has(Self::DISPLAY) || self.has(Self::VIRTUAL_DISPLAY)
    }

    pub fn describe(self) -> (r: String)
        ensures
            r@ == described(self.0),
    {
        let display = self.has(Self::DISPLAY);
        let button = self.has(Self::PUSH_BUTTON);
        let keypad = self.has(Self::KEYPAD);
        let mut s: Vec<char> = Vec::new();
        if !display && !button && !keypad {
            push_str(&mut s, "no pairing method (0x");
            push_hex_wide(&mut s, self.0 as u64, 4);
            push_str(&mut s, ")");
            assert(s@ =~= described(self.0));
            return to_string(&s);
        }
        proof {
            reveal_strlit("display");
            reveal_strlit("push-button");
            reveal_strlit("keypad");
        }
        let ghost names = Seq::<Seq<char>>::empty();
        if display {
            push_name(&mut s, "display", Ghost(names));
            proof {
                names = names.push("display"@);
            }
        }
        if button {
            push_name(&mut s, "push-button", Ghost(names));
            proof {
                names = names.push("push-button"@);
            }
        }
        if keypad {
            push_name(&mut s, "keypad", Ghost(names));
            proof {
                names = names.push("keypad"@);
            }
        }
        assert(names =~= method_names(self.0));
        to_string(&s)
    }
}

/// The first Config Methods attribute at or after `i`.
pub open spec fn methods_from(v: Seq<u8>, i: int) -> Option<u16>
    decreases v.len() - i,
{
    if i < 0 || i + 4 > v.len() {
        None
    } else {
        let end = i + 4 + be16_at(v, i + 2);
        if end > v.len() {
            None
        } else if be16_at(v, i) == 0x1008 && be16_at(v, i + 2) >= 2 {
            Some(be16_at(v, i + 4) as u16)
        } else {
            methods_from(v, end)
        }
    }
}

/// Reads the Config Methods attribute out of a WPS element's value.
///
/// WPS attributes are a two-byte id, a two-byte length and a body, big-endian
/// throughout; Config Methods is id `0x1008` and is itself two bytes.
pub fn parse_config_methods(value: &[u8]) -> (r: Option<ConfigMethods>)
    ensures
        r == match methods_from(value@, 0) {
            Some(m) => Some(ConfigMethods(m)),
            None => None,
        },
{
    let total: usize = value.len();
    let mut i: usize = 0;
    while total - i >= 4
        invariant
            total == value@.len(),
            i <= total,
            methods_from(value@, 0) == methods_from(value@, i as int),
        decreases total - i,
    {
        let id: u16 = read_be16(value, i);
        let len: usize = read_be16(value, i + 2) as usize;
        if total - i - 4 < len {
            return None;
        }
        if id == 0x1008 && len >= 2 {
            return Some(ConfigMethods(read_be16(value, i + 4)));
        }
        i = i + 4 + len;
    }
    None
}

// ---- bitrate requests ----

/// The ceiling that the first line from `i` on with the parameter's name asks
/// for. A line with no colon names nothing.
pub open spec fn max_bitrate_from(ls: Seq<Seq<char>>, i: int) -> Option<nat>
    decreases ls.len() - i,
{
    if i >= ls.len() {
        None
    } else {
        match split_once(ls[i], ':') {
            Some(kv) => if lowered(trim(kv.0)) == lowered("microsoft_max_bitrate"@) {
                parse_dec(trim(kv.1), u32::MAX as nat)
            } else {
                max_bitrate_from(ls, i + 1)
            },
            None => max_bitrate_from(ls, i + 1),
        }
    }
}

/// Reads a mid-session bitrate request out of an RTSP body.
///
/// A sink watching its own loss asks the source to send less. A source that
/// reads this only once, from the initial capabilities, has no way to ride out
/// a link that is degrading.
///
/// Returns `None` when the body carries no such request, which is the ordinary
/// case for every other parameter a display might set.
pub fn parse_max_bitrate_kbps(body: &str) -> (r: Option<u32>)
    ensures
        r is Some <==> max_bitrate_from(lines(body@), 0) is Some,
        r matches Some(k) ==> max_bitrate_from(lines(body@), 0) == Some(k as nat),
{
    let a = to_chars(body);
    let ls = lines_of(&a);
    let name = to_chars("microsoft_max_bitrate");
    let mut i: usize = 0;
    while i < ls.len()
        invariant
            i <= ls@.len(),
            texts(ls@) == lines(body@),
            name@ == "microsoft_max_bitrate"@,
            max_bitrate_from(lines(body@), 0) == max_bitrate_from(lines(body@), i as int),
        decreases ls@.len() - i,
    {
        assert(ls@[i as int]@ == lines(body@)[i as int]);
        // A line with no colon is skipped, not fatal: `wfd_idr_request` is a
        // bare flag and arrives in the same body as this request.
        if let Some((k, v)) = split_once_of(&ls[i], ':') {
            if same_but_case(trim_of(k), &name) {
                return match read_dec(trim_of(v), u32::MAX as u64) {
                    Some(n) => Some(n as u32),
                    None => None,
                };
            }
        }
        i = i + 1;
    }
    None
}

/// A ceiling that is read fits 32 bits.
pub proof fn lemma_max_bitrate_bound(ls: Seq<Seq<char>>, i: int)
    ensures
        max_bitrate_from(ls, i) matches Some(k) ==> k <= u32::MAX,
    decreases ls.len() - i,
{
    if i < ls.len() {
        lemma_max_bitrate_bound(ls, i + 1);
    }
}

// ---- laws ----

/// The bytes that pairs of hexadecimal digits stand for.
pub open spec fn hex_bytes(s: Seq<char>) -> Seq<u8> {
    Seq::new(
        s.len() / 2,
        |i: int|
            (crate::number::hex_digit(s[2 * i]) * 16 + crate::number::hex_digit(s[2 * i + 1])) as u8,
    )
}

/// Four hexadecimal digits are the two bytes of their number.
proof fn lemma_hex4(n: nat)
    requires
        n < 65536,
    ensures
        hex4(n).len() == 4,
        crate::number::hex_digit(hex4(n)[0]) * 16 + crate::number::hex_digit(hex4(n)[1]) == n / 256,
        crate::number::hex_digit(hex4(n)[2]) * 16 + crate::number::hex_digit(hex4(n)[3]) == n % 256,
{
    reveal_with_fuel(hex, 4);
    assert(n / 16 / 16 == n / 256);
    assert(n / 16 / 16 / 16 == n / 4096);
    assert(hex4(n) =~= seq![
        crate::number::hex_char(n / 4096),
        crate::number::hex_char(n / 256 % 16),
        crate::number::hex_char(n / 16 % 16),
        crate::number::hex_char(n % 16),
    ]);
}

/// The sink's own advertisement, read back from the bytes its hex form stands
/// for, says what was put into it: a primary sink without content protection,
/// with the same availability, port and ceiling.
pub proof fn law_device_info_reads_back(d: DeviceInfo)
    ensures
        hex_bytes(subelement_text(d)).len() == 8,
        be16_at(hex_bytes(subelement_text(d)), 0) == 6,
        device_caps(hex_bytes(subelement_text(d)).skip(2)) == Some(
            DeviceCaps {
                kind: DeviceKind::PrimarySink,
                session_available: d.session_available,
                content_protection: false,
                rtsp_port: d.rtsp_port,
                max_throughput_mbps: d.max_throughput_mbps,
            },
        ),
{
    reveal_strlit("0006");
    let f = sink_flags(d.session_available);
    lemma_hex4(f);
    lemma_hex4(d.rtsp_port as nat);
    lemma_hex4(d.max_throughput_mbps as nat);
    let t = subelement_text(d);
    let h0 = hex4(f);
    let h1 = hex4(d.rtsp_port as nat);
    let h2 = hex4(d.max_throughput_mbps as nat);
    assert(t.len() == 16);
    assert(t[4] == h0[0] && t[5] == h0[1] && t[6] == h0[2] && t[7] == h0[3]);
    assert(t[8] == h1[0] && t[9] == h1[1] && t[10] == h1[2] && t[11] == h1[3]);
    assert(t[12] == h2[0] && t[13] == h2[1] && t[14] == h2[2] && t[15] == h2[3]);
    let b = hex_bytes(t);
    assert(b[2] == 0 && b[3] == f);
    assert(b[4] == d.rtsp_port / 256);
    assert(b[5] == d.rtsp_port % 256);
    assert(b[6] == d.max_throughput_mbps / 256);
    assert(b[7] == d.max_throughput_mbps % 256);
}

/// A request for a ceiling, written as the sink writes it, is read as that
/// ceiling.
pub proof fn law_bitrate_request_reads_back(kbps: u32)
    ensures
        max_bitrate_from(
            lines("microsoft_max_bitrate: "@ + dec(kbps as nat) + "\r\n"@),
            0,
        ) == Some(kbps as nat),
{
    let name = "microsoft_max_bitrate"@;
    let s = "microsoft_max_bitrate: "@ + dec(kbps as nat) + "\r\n"@;
    reveal_strlit("microsoft_max_bitrate: ");
    reveal_strlit("microsoft_max_bitrate");
    reveal_strlit("\r\n");
    let d = dec(kbps as nat);
    crate::number::law_dec_reads_back(kbps as nat);
    crate::number::law_parse_dec_of_dec(kbps as nat, u32::MAX as nat);
    let n = s.len() as int;
    crate::text::lemma_find_from_is(s, '\n', 0, n - 1);
    let line = s.subrange(0, n - 1);
    assert(lines(s) =~= seq![crate::text::strip_cr(line)]) by {
        reveal_with_fuel(crate::text::lines_from, 2);
    }
    let l = crate::text::strip_cr(line);
    assert(l =~= "microsoft_max_bitrate: "@ + d);
    crate::text::lemma_find_from_is(l, ':', 0, 21);
    let kv = split_once(l, ':').unwrap();
    assert(kv.0 =~= name);
    assert(kv.1 =~= seq![' '] + d);
    crate::text::lemma_trim_of_tight(name);
    crate::text::lemma_trim_drops_space(d);
    assert(max_bitrate_from(lines(s), 0) == parse_dec(trim(kv.1), u32::MAX as nat));
}

/// What the bits of a device's description mean: the lowest two say what it is, a
/// one in the two from the fifth on that it is free, and the ninth that it protects
/// content. Its port and its ceiling follow, each with the higher byte first.
pub proof fn law_the_bits_of_a_device(b: Seq<u8>)
    ensures
        device_caps(b) is Some <==> b.len() >= 6,
        device_caps(b) matches Some(c) ==> {
            &&& c.kind == DeviceKind::Source <==> b[1] & 3 == 0
            &&& c.kind == DeviceKind::PrimarySink <==> b[1] & 3 == 1
            &&& c.kind == DeviceKind::SecondarySink <==> b[1] & 3 == 2
            &&& c.kind == DeviceKind::DualRole <==> b[1] & 3 == 3
            &&& c.session_available <==> b[1] & 0x30 == 0x10
            &&& c.content_protection <==> b[0] & 1 == 1
            &&& c.rtsp_port == 256 * b[2] + b[3]
            &&& c.max_throughput_mbps == 256 * b[4] + b[5]
        },
{
    let (x, y) = (b[0], b[1]);
    assert(y & 3 == y % 4 && (y & 0x30 == 0x10 <==> y / 16 % 4 == 1) && x & 1 == x % 2)
        by (bit_vector);
    if b.len() >= 6 {
        let info = be16_at(b, 0);
        assert(info % 4 == y % 4);
        assert(info / 16 % 4 == y / 16 % 4);
        assert(info / 256 == x);
    }
}

/// The methods that are named are those whose bits are set, the display before the
/// button and the button before the keypad.
pub proof fn law_the_names_of_methods(methods: u16)
    ensures
        ({
            let names = method_names(methods);
            let d = if methods & 0x08 != 0 {
                seq!["display"@]
            } else {
                seq![]
            };
            let b = if methods & 0x80 != 0 {
                seq!["push-button"@]
            } else {
                seq![]
            };
            let k = if methods & 0x100 != 0 {
                seq!["keypad"@]
            } else {
                seq![]
            };
            names == d + b + k
        }),
{
    assert((methods & 0x08 != 0 <==> methods & 0x08 == 0x08) && (methods & 0x80 != 0 <==> methods
        & 0x80 == 0x80) && (methods & 0x100 != 0 <==> methods & 0x100 == 0x100)) by (bit_vector);
}

/// The methods of a WPS element are in the first attribute 0x1008 that holds at
/// least two bytes. Attributes follow one another, each as long as its third and
/// fourth byte say, and one that is cut short ends the search.
pub proof fn law_where_methods_are(v: Seq<u8>, i: int)
    requires
        0 <= i,
    ensures
        ({
            let id = 256 * v[i] + v[i + 1];
            let len = 256 * v[i + 2] + v[i + 3];
            let whole = i + 4 <= v.len() && i + 4 + len <= v.len();
            &&& !whole ==> methods_from(v, i) is None
            &&& whole && id == 0x1008 && len >= 2 ==> methods_from(v, i) == Some(
                (256 * v[i + 4] + v[i + 5]) as u16,
            )
            &&& whole && !(id == 0x1008 && len >= 2) ==> methods_from(v, i) == methods_from(
                v,
                i + 4 + len,
            )
        }),
{
}

} // verus!
