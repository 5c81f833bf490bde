//! What a sink says it can accept, and what we choose from it.
//!
//! Two rules matter more than the parsing. A parameter we do not recognise is
//! ignored rather than fatal, because every real display sends some. And having
//! nothing in common is reported with both sides' offers, because that is the
//! failure most likely to meet an unfamiliar display and the one hardest to
//! diagnose from the outside.
use vstd::prelude::*;
use crate::miracast::rtsp::VideoMode;
use crate::miracast::wfd::{listed, pairs, parameters, parse_parameter_body, Pair};
use crate::number::{dec, parse_dec, parse_hex, push_dec, read_dec, read_hex};
use crate::proto::Mode;
use crate::text::{
    is_str, pieces, pieces_of, push_chars, push_str, quote, quoted, texts, to_chars, to_string,
    trim, trim_of, words, words_of,
};

verus! {

#[derive(Debug, Clone, PartialEq, Eq)]
pub struct SinkCaps {
    pub cea: u32,
    pub vesa: u32,
    pub hh: u32,
    pub profile: u8,
    pub level: u8,
    pub lpcm_modes: u32,
    pub rtp_port: u16,
    pub max_bitrate_kbps: Option<u32>,
    /// Present only when the display asks for content protection we cannot
    /// give it; `none` is recorded as absent.
    pub content_protection: Option<String>,
    pub video_formats: Vec<VideoCodecCaps>,
}

#[derive(Debug, Clone, Copy, PartialEq, Eq, Structural)]
pub struct VideoCodecCaps {
    pub profile: u8,
    pub level: u8,
    pub cea: u32,
    pub vesa: u32,
    pub hh: u32,
}

#[derive(Debug, PartialEq, Eq)]
pub enum CapsError {
    NoVideoFormats,
    MalformedVideoFormats(String),
}

#[derive(Debug, Clone, Copy, PartialEq, Eq, Structural)]
pub enum VideoTable {
    Cea,
    Vesa,
    Hh,
}

#[derive(Debug, Clone, Copy, PartialEq, Eq, Structural)]
pub struct ModeSelection {
    pub mode: VideoMode,
    pub table: VideoTable,
    pub bit: u32,
    /// WFD profile bitmap: bit 0 is constrained baseline, bit 1 constrained high.
    pub profile: u8,
    /// WFD level bitmap, reduced to the one level used for this stream.
    pub level: u8,
}

// ---- what they say ----

#[verifier::ext_equal]
pub struct SinkCapsView {
    pub cea: u32,
    pub vesa: u32,
    pub hh: u32,
    pub profile: u8,
    pub level: u8,
    pub lpcm_modes: u32,
    pub rtp_port: u16,
    pub max_bitrate_kbps: Option<u32>,
    pub content_protection: Option<Seq<char>>,
    pub video_formats: Seq<VideoCodecCaps>,
}

#[verifier::ext_equal]
pub enum CapsErrorView {
    NoVideoFormats,
    MalformedVideoFormats(Seq<char>),
}

impl View for SinkCaps {
    type V = SinkCapsView;

    open spec fn view(&self) -> SinkCapsView {
        SinkCapsView {
            cea: self.cea,
            vesa: self.vesa,
            hh: self.hh,
            profile: self.profile,
            level: self.level,
            lpcm_modes: self.lpcm_modes,
            rtp_port: self.rtp_port,
            max_bitrate_kbps: self.max_bitrate_kbps,
            content_protection: match self.content_protection {
                Some(s) => Some(s@),
                None => None,
            },
            video_formats: self.video_formats@,
        }
    }
}

impl View for CapsError {
    type V = CapsErrorView;

    open spec fn view(&self) -> CapsErrorView {
        match self {
            CapsError::NoVideoFormats => CapsErrorView::NoVideoFormats,
            CapsError::MalformedVideoFormats(s) => CapsErrorView::MalformedVideoFormats(s@),
        }
    }
}

impl CapsErrorView {
    /// The error in words.
    pub open spec fn words(self) -> Seq<char> {
        match self {
            CapsErrorView::NoVideoFormats => "the display advertised no video formats"@,
            CapsErrorView::MalformedVideoFormats(s) => "could not read wfd_video_formats: "@
                + quoted(s),
        }
    }
}

impl CapsError {
    /// The error in words.
    pub fn message(&self) -> (r: String)
        ensures
            r@ == self@.words(),
    {
        let mut s: Vec<char> = Vec::new();
        match self {
            CapsError::NoVideoFormats => {
                push_str(&mut s, "the display advertised no video formats");
            },
            CapsError::MalformedVideoFormats(t) => {
                push_str(&mut s, "could not read wfd_video_formats: ");
                push_str(&mut s, &quote(t));
            },
        }
        assert(s@ =~= self@.words());
        to_string(&s)
    }
}

// ---- the tables ----

pub open spec fn video_mode(width: u32, height: u32, fps: u32) -> VideoMode {
    VideoMode { width, height, fps }
}

/// The progressive mode behind an index of the CEA table. 2, 4, 9 and 14 are
/// interlaced; they are not passed off as progressive.
pub open spec fn cea(bit: u32) -> Option<VideoMode> {
    if bit == 0 {
        Some(video_mode(640, 480, 60))
    } else if bit == 1 {
        Some(video_mode(720, 480, 60))
    } else if bit == 3 {
        Some(video_mode(720, 576, 50))
    } else if bit == 5 {
        Some(video_mode(1280, 720, 30))
    } else if bit == 6 {
        Some(video_mode(1280, 720, 60))
    } else if bit == 7 {
        Some(video_mode(1920, 1080, 30))
    } else if bit == 8 {
        Some(video_mode(1920, 1080, 60))
    } else if bit == 10 {
        Some(video_mode(1280, 720, 25))
    } else if bit == 11 {
        Some(video_mode(1280, 720, 50))
    } else if bit == 12 {
        Some(video_mode(1920, 1080, 25))
    } else if bit == 13 {
        Some(video_mode(1920, 1080, 50))
    } else if bit == 15 {
        Some(video_mode(1280, 720, 24))
    } else if bit == 16 {
        Some(video_mode(1920, 1080, 24))
    } else {
        None
    }
}

/// The sizes of the VESA table; each has a 30 and a 60 frame mode.
pub open spec fn vesa_sizes() -> Seq<(u32, u32)> {
    seq![
        (800, 600),
        (1024, 768),
        (1152, 864),
        (1280, 768),
        (1280, 800),
        (1360, 768),
        (1366, 768),
        (1280, 1024),
        (1400, 1050),
        (1440, 900),
        (1600, 900),
        (1600, 1200),
        (1680, 1050),
        (1920, 1200),
    ]
}

/// The sizes of the handheld table; each has a 30 and a 60 frame mode.
pub open spec fn hh_sizes() -> Seq<(u32, u32)> {
    seq![(800, 480), (854, 480), (864, 480), (640, 360), (960, 540), (848, 480)]
}

/// The mode behind an index of a table whose even entries are at 30 frames and
/// odd ones at 60.
pub open spec fn paired(sizes: Seq<(u32, u32)>, bit: u32) -> Option<VideoMode> {
    if bit < 2 * sizes.len() {
        let size = sizes[bit as int / 2];
        Some(
            video_mode(
                size.0,
                size.1,
                if bit % 2 == 0 {
                    30
                } else {
                    60
                },
            ),
        )
    } else {
        None
    }
}

/// CEA table index to a progressive resolution.
///
/// The sink offers one mode only; a source meets displays that offer many, so
/// the fuller table lives here.
pub fn cea_mode(bit: u32) -> (r: Option<VideoMode>)
    ensures
        r == cea(bit),
{
    let (width, height, fps): (u32, u32, u32) = match bit {
        0 => (640, 480, 60),
        1 => (720, 480, 60),
        // 2, 4, 9 and 14 are interlaced modes. We do not silently advertise
        // them as progressive: the encoder and MPEG-TS signal progressive.
        3 => (720, 576, 50),
        5 => (1280, 720, 30),
        6 => (1280, 720, 60),
        7 => (1920, 1080, 30),
        8 => (1920, 1080, 60),
        10 => (1280, 720, 25),
        11 => (1280, 720, 50),
        12 => (1920, 1080, 25),
        13 => (1920, 1080, 50),
        15 => (1280, 720, 24),
        16 => (1920, 1080, 24),
        _ => {
            return None;
        },
    };
    Some(VideoMode { width, height, fps })
}

fn paired_mode(sizes: &[(u32, u32)], bit: u32) -> (r: Option<VideoMode>)
    requires
        sizes@.len() <= 100,
    ensures
        r == paired(sizes@, bit),
{
    let n: u32 = sizes.len() as u32;
    if bit < 2 * n {
        let size = sizes[(bit / 2) as usize];
        Some(
            VideoMode {
                width: size.0,
                height: size.1,
                fps: if bit % 2 == 0 {
                    30
                } else {
                    60
                },
            },
        )
    } else {
        None
    }
}

pub fn vesa_mode(bit: u32) -> (r: Option<VideoMode>)
    ensures
        r == paired(vesa_sizes(), bit),
{
    let sizes: [(u32, u32); 14] = [
        (800, 600),
        (1024, 768),
        (1152, 864),
        (1280, 768),
        (1280, 800),
        (1360, 768),
        (1366, 768),
        (1280, 1024),
        (1400, 1050),
        (1440, 900),
        (1600, 900),
        (1600, 1200),
        (1680, 1050),
        (1920, 1200),
    ];
    assert(sizes@ =~= vesa_sizes());
    paired_mode(&sizes, bit)
}

pub fn hh_mode(bit: u32) -> (r: Option<VideoMode>)
    ensures
        r == paired(hh_sizes(), bit),
{
    let sizes: [(u32, u32); 6] = [
        (800, 480),
        (854, 480),
        (864, 480),
        (640, 360),
        (960, 540),
        (848, 480),
    ];
    assert(sizes@ =~= hh_sizes());
    paired_mode(&sizes, bit)
}

// ---- reading a display's reply ----

/// The value of the first parameter of that name from `i` on.
pub open spec fn value_from(ps: Seq<Pair>, name: Seq<char>, i: int) -> Option<Seq<char>>
    decreases ps.len() - i,
{
    if i >= ps.len() {
        None
    } else if ps[i].0 == name {
        Some(ps[i].1)
    } else {
        value_from(ps, name, i + 1)
    }
}

/// The value of the first parameter of that name.
pub open spec fn value(ps: Seq<Pair>, name: Seq<char>) -> Option<Seq<char>> {
    value_from(ps, name, 0)
}

/// The codec that five fields from `k` on describe.
pub open spec fn codec_of(f: Seq<Seq<char>>, k: int) -> Option<VideoCodecCaps> {
    if f.len() < k + 5 {
        None
    } else {
        match (
            parse_hex(f[k], 255),
            parse_hex(f[k + 1], 255),
            parse_hex(f[k + 2], u32::MAX as nat),
            parse_hex(f[k + 3], u32::MAX as nat),
            parse_hex(f[k + 4], u32::MAX as nat),
        ) {
            (Some(p), Some(l), Some(c), Some(v), Some(h)) => Some(
                VideoCodecCaps {
                    profile: p as u8,
                    level: l as u8,
                    cea: c as u32,
                    vesa: v as u32,
                    hh: h as u32,
                },
            ),
            _ => None,
        }
    }
}

/// The codecs that the tuples from `i` on describe. Native and preferred mode
/// precede the first tuple's own fields.
pub open spec fn codecs_from(tuples: Seq<Seq<char>>, i: int) -> Option<Seq<VideoCodecCaps>>
    decreases tuples.len() - i,
{
    if i >= tuples.len() {
        Some(Seq::empty())
    } else {
        match (
            codec_of(
                words(tuples[i]),
                if i == 0 {
                    2
                } else {
                    0
                },
            ),
            codecs_from(tuples, i + 1),
        ) {
            (Some(c), Some(cs)) => Some(seq![c] + cs),
            _ => None,
        }
    }
}

/// The second word of a value, if it is there.
pub open spec fn second_word(v: Option<Seq<char>>) -> Option<Seq<char>> {
    match v {
        Some(s) => if words(s).len() >= 2 {
            Some(words(s)[1])
        } else {
            None
        },
        None => None,
    }
}

/// The LPCM modes a display takes: none when it does not say.
pub open spec fn lpcm_of(ps: Seq<Pair>) -> u32 {
    match second_word(value(ps, "wfd_audio_codecs"@)) {
        Some(w) => match parse_hex(w, u32::MAX as nat) {
            Some(n) => n as u32,
            None => 0,
        },
        None => 0,
    }
}

/// The port a display wants RTP on: 5000 when it does not say.
pub open spec fn port_of(ps: Seq<Pair>) -> u16 {
    match second_word(value(ps, "wfd_client_rtp_ports"@)) {
        Some(w) => match parse_dec(w, u16::MAX as nat) {
            Some(n) => n as u16,
            None => 5000,
        },
        None => 5000,
    }
}

/// The ceiling a display names, if it names a readable one.
pub open spec fn bitrate_of(ps: Seq<Pair>) -> Option<u32> {
    match value(ps, "microsoft_max_bitrate"@) {
        Some(v) => match parse_dec(trim(v), u32::MAX as nat) {
            Some(n) => Some(n as u32),
            None => None,
        },
        None => None,
    }
}

/// The content protection a display asks for; `none` asks for nothing.
pub open spec fn protection_of(ps: Seq<Pair>) -> Option<Seq<char>> {
    match value(ps, "wfd_content_protection"@) {
        Some(v) => if trim(v) == "none"@ {
            None
        } else {
            Some(v)
        },
        None => None,
    }
}

/// What an M3 response body says.
pub open spec fn caps_of(body: Seq<char>) -> Result<SinkCapsView, CapsErrorView> {
    let ps = parameters(body);
    match value(ps, "wfd_video_formats"@) {
        None => Err(CapsErrorView::NoVideoFormats),
        Some(video) => match codecs_from(pieces(video, ','), 0) {
            None => Err(CapsErrorView::MalformedVideoFormats(video)),
            Some(cs) => Ok(
                SinkCapsView {
                    profile: cs[0].profile,
                    level: cs[0].level,
                    cea: cs[0].cea,
                    vesa: cs[0].vesa,
                    hh: cs[0].hh,
                    lpcm_modes: lpcm_of(ps),
                    rtp_port: port_of(ps),
                    max_bitrate_kbps: bitrate_of(ps),
                    content_protection: protection_of(ps),
                    video_formats: cs,
                },
            ),
        },
    }
}

fn get(params: &Vec<(String, String)>, name: &str) -> (r: Option<Vec<char>>)
    ensures
        r is Some <==> value(pairs(params@), name@) is Some,
        r matches Some(v) ==> value(pairs(params@), name@) == Some(v@),
{
    let ghost ps = pairs(params@);
    let mut i: usize = 0;
    while i < params.len()
        invariant
            i <= params@.len(),
            ps == pairs(params@),
            value(ps, name@) == value_from(ps, name@, i as int),
        decreases params@.len() - i,
    {
        let k = to_chars(&params[i].0);
        if is_str(&k, name) {
            return Some(to_chars(&params[i].1));
        }
        i = i + 1;
    }
    None
}

fn read_codec(fields: &Vec<Vec<char>>, offset: usize) -> (r: Option<VideoCodecCaps>)
    requires
        offset <= 2,
    ensures
        r == codec_of(texts(fields@), offset as int),
{
    if fields.len() < offset + 5 {
        return None;
    }
    let ghost f = texts(fields@);
    let ghost k = offset as int;
    assert(f[k] == fields@[k]@ && f[k + 1] == fields@[k + 1]@ && f[k + 2] == fields@[k + 2]@);
    assert(f[k + 3] == fields@[k + 3]@ && f[k + 4] == fields@[k + 4]@);
    let max: u64 = u32::MAX as u64;
    let p = read_hex(&fields[offset], 255);
    let l = read_hex(&fields[offset + 1], 255);
    let c = read_hex(&fields[offset + 2], max);
    let v = read_hex(&fields[offset + 3], max);
    let h = read_hex(&fields[offset + 4], max);
    match (p, l, c, v, h) {
        (Some(p), Some(l), Some(c), Some(v), Some(h)) => Some(
            VideoCodecCaps {
                profile: p as u8,
                level: l as u8,
                cea: c as u32,
                vesa: v as u32,
                hh: h as u32,
            },
        ),
        _ => None,
    }
}

/// Reads the comma-separated codec tuples. Each owns its own profile, level and
/// mode masks.
fn read_codecs(video: &[char]) -> (r: Option<Vec<VideoCodecCaps>>)
    ensures
        r is Some <==> codecs_from(pieces(video@, ','), 0) is Some,
        r matches Some(cs) ==> codecs_from(pieces(video@, ','), 0) == Some(cs@),
        r matches Some(cs) ==> cs@.len() > 0,
{
    let tuples = pieces_of(video, ',');
    let ghost ts = pieces(video@, ',');
    assert(ts.len() > 0);
    let mut out: Vec<VideoCodecCaps> = Vec::new();
    let mut i: usize = 0;
    assert(codecs_from(ts, 0) matches Some(cs) ==> out@ + cs =~= cs);
    while i < tuples.len()
        invariant
            i <= tuples@.len(),
            texts(tuples@) == ts,
            ts == pieces(video@, ','),
            out@.len() == i,
            codecs_from(ts, 0) is Some <==> codecs_from(ts, i as int) is Some,
            codecs_from(ts, i as int) matches Some(cs) ==> codecs_from(ts, 0) == Some(out@ + cs),
        decreases tuples@.len() - i,
    {
        assert(ts[i as int] == tuples@[i as int]@);
        let fields = words_of(&tuples[i]);
        let offset: usize = if i == 0 {
            2
        } else {
            0
        };
        match read_codec(&fields, offset) {
            None => {
                return None;
            },
            Some(c) => {
                let ghost before = out@;
                out.push(c);
                assert(codecs_from(ts, i + 1) matches Some(cs) ==> out@ + cs =~= before + (seq![c]
                    + cs));
            },
        }
        i = i + 1;
    }
    assert(out@ + Seq::empty() =~= out@);
    Some(out)
}

fn second_of(v: &Option<Vec<char>>) -> (r: Option<Vec<char>>)
    ensures
        match *v {
            Some(a) => match r {
                Some(w) => second_word(Some(a@)) == Some(w@),
                None => second_word(Some(a@)) is None,
            },
            None => r is None,
        },
{
    match v {
        None => None,
        Some(a) => {
            let mut ws = words_of(a);
            assert(texts(ws@) == words(a@));
            if ws.len() >= 2 {
                assert(texts(ws@)[1] == ws@[1]@);
                Some(ws.remove(1))
            } else {
                None
            }
        },
    }
}

/// Reads an M3 response body. Unrecognised parameters are skipped; only a
/// missing or unreadable `wfd_video_formats` is fatal, because without it there
/// is nothing to choose from.
pub fn parse(body: &str) -> (r: Result<SinkCaps, CapsError>)
    ensures
        r is Ok <==> caps_of(body@) is Ok,
        r matches Ok(c) ==> caps_of(body@) == Ok::<SinkCapsView, CapsErrorView>(c@),
        r matches Err(e) ==> caps_of(body@) == Err::<SinkCapsView, CapsErrorView>(e@),
{
    let params = parse_parameter_body(body);
    let video = match get(&params, "wfd_video_formats") {
        None => {
            return Err(CapsError::NoVideoFormats);
        },
        Some(v) => v,
    };
    let video_formats = match read_codecs(&video) {
        None => {
            return Err(CapsError::MalformedVideoFormats(to_string(&video)));
        },
        Some(cs) => cs,
    };
    let first = video_formats[0];
    let lpcm_modes: u32 = match second_of(&get(&params, "wfd_audio_codecs")) {
        Some(w) => match read_hex(&w, u32::MAX as u64) {
            Some(n) => n as u32,
            None => 0,
        },
        None => 0,
    };
    let rtp_port: u16 = match second_of(&get(&params, "wfd_client_rtp_ports")) {
        Some(w) => match read_dec(&w, u16::MAX as u64) {
            Some(n) => n as u16,
            None => 5000,
        },
        None => 5000,
    };
    let max_bitrate_kbps: Option<u32> = match get(&params, "microsoft_max_bitrate") {
        Some(v) => match read_dec(trim_of(&v), u32::MAX as u64) {
            Some(n) => Some(n as u32),
            None => None,
        },
        None => None,
    };
    let content_protection: Option<String> = match get(&params, "wfd_content_protection") {
        Some(v) => if is_str(trim_of(&v), "none") {
            None
        } else {
            Some(to_string(&v))
        },
        None => None,
    };
    let c = SinkCaps {
        profile: first.profile,
        level: first.level,
        cea: first.cea,
        vesa: first.vesa,
        hh: first.hh,
        lpcm_modes,
        rtp_port,
        max_bitrate_kbps,
        content_protection,
        video_formats,
    };
    assert(caps_of(body@) == Ok::<SinkCapsView, CapsErrorView>(c@));
    Ok(c)
}


// ---- what a display offers ----

#[derive(Debug)]
pub struct NoCommonFormat {
    pub sink_offered: Vec<VideoMode>,
    pub we_offered: Vec<VideoMode>,
}

/// A mode as people write it.
pub open spec fn mode_name(m: VideoMode) -> Seq<char> {
    dec(m.width as nat) + "x"@ + dec(m.height as nat) + "p"@ + dec(m.fps as nat)
}

pub open spec fn mode_names(ms: Seq<VideoMode>) -> Seq<Seq<char>> {
    Seq::new(ms.len(), |i: int| mode_name(ms[i]))
}

/// A list of modes in words.
pub open spec fn shown(ms: Seq<VideoMode>) -> Seq<char> {
    if ms.len() == 0 {
        "nothing"@
    } else {
        listed(mode_names(ms))
    }
}

fn push_mode(s: &mut Vec<char>, m: &VideoMode)
    ensures
        final(s)@ == old(s)@ + mode_name(*m),
{
    push_dec(s, m.width as u64);
    push_str(s, "x");
    push_dec(s, m.height as u64);
    push_str(s, "p");
    push_dec(s, m.fps as u64);
    assert(s@ =~= old(s)@ + mode_name(*m));
}

fn show(ms: &Vec<VideoMode>) -> (r: Vec<char>)
    ensures
        r@ == shown(ms@),
{
    let mut s: Vec<char> = Vec::new();
    if ms.len() == 0 {
        push_str(&mut s, "nothing");
        assert(s@ =~= "nothing"@);
        return s;
    }
    let ghost names = mode_names(ms@);
    let mut i: usize = 0;
    assert(names.take(0) =~= Seq::empty());
    while i < ms.len()
        invariant
            i <= ms@.len(),
            names == mode_names(ms@),
            s@ == listed(names.take(i as int)),
        decreases ms@.len() - i,
    {
        let ghost before = s@;
        if i > 0 {
            push_str(&mut s, ", ");
        }
        push_mode(&mut s, &ms[i]);
        assert(names.take(i + 1).drop_last() =~= names.take(i as int));
        assert(s@ =~= listed(names.take(i + 1)));
        i = i + 1;
    }
    assert(names.take(i as int) =~= names);
    s
}

impl NoCommonFormat {
    /// The error in words.
    pub fn message(&self) -> (r: String)
        ensures
            r@ == "no video format in common: the display offered "@ + shown(self.sink_offered@)
                + "; we offered "@ + shown(self.we_offered@),
    {
        let mut s: Vec<char> = Vec::new();
        push_str(&mut s, "no video format in common: the display offered ");
        push_chars(&mut s, &show(&self.sink_offered));
        push_str(&mut s, "; we offered ");
        push_chars(&mut s, &show(&self.we_offered));
        assert(s@ =~= "no video format in common: the display offered "@ + shown(
            self.sink_offered@,
        ) + "; we offered "@ + shown(self.we_offered@));
        to_string(&s)
    }
}

/// The mode behind an index of a table.
pub open spec fn mode_in(table: VideoTable, bit: u32) -> Option<VideoMode> {
    match table {
        VideoTable::Cea => cea(bit),
        VideoTable::Vesa => paired(vesa_sizes(), bit),
        VideoTable::Hh => paired(hh_sizes(), bit),
    }
}

/// Whether a bitmap has a bit set.
pub open spec fn has_bit(mask: u32, bit: u32) -> bool {
    mask & (1u32 << bit) != 0
}

/// A mode that is on offer: its table, its bit there, and the mode.
pub type Offer = (VideoTable, u32, VideoMode);

/// The modes whose bits are set in a bitmap, from `bit` on.
pub open spec fn offers_from(table: VideoTable, mask: u32, bit: u32) -> Seq<Offer>
    decreases 32 - bit,
{
    if bit >= 32 {
        Seq::empty()
    } else {
        match mode_in(table, bit) {
            Some(mode) if has_bit(mask, bit) => seq![(table, 1u32 << bit, mode)] + offers_from(
                table,
                mask,
                (bit + 1) as u32,
            ),
            _ => offers_from(table, mask, (bit + 1) as u32),
        }
    }
}

/// The modes a codec offers: the CEA ones, the VESA ones, the handheld ones.
pub open spec fn offers(c: VideoCodecCaps) -> Seq<Offer> {
    offers_from(VideoTable::Cea, c.cea, 0) + offers_from(VideoTable::Vesa, c.vesa, 0)
        + offers_from(VideoTable::Hh, c.hh, 0)
}

/// The codecs of a display. With at most one on record the display's own
/// fields stand for it, for callers that adjust a captured capability.
pub open spec fn codecs(c: SinkCapsView) -> Seq<VideoCodecCaps> {
    if c.video_formats.len() <= 1 {
        seq![
            VideoCodecCaps {
                profile: c.profile,
                level: c.level,
                cea: c.cea,
                vesa: c.vesa,
                hh: c.hh,
            },
        ]
    } else {
        c.video_formats
    }
}

pub open spec fn offered_modes(os: Seq<Offer>) -> Seq<VideoMode> {
    Seq::new(os.len(), |i: int| os[i].2)
}

/// The modes that the codecs from `i` on offer.
pub open spec fn modes_from(cs: Seq<VideoCodecCaps>, i: int) -> Seq<VideoMode>
    decreases cs.len() - i,
{
    if i >= cs.len() {
        Seq::empty()
    } else {
        offered_modes(offers(cs[i])) + modes_from(cs, i + 1)
    }
}

fn codec_formats(c: &SinkCaps) -> (r: Vec<VideoCodecCaps>)
    ensures
        r@ == codecs(c@),
{
    let mut out: Vec<VideoCodecCaps> = Vec::new();
    if c.video_formats.len() <= 1 {
        out.push(
            VideoCodecCaps {
                profile: c.profile,
                level: c.level,
                cea: c.cea,
                vesa: c.vesa,
                hh: c.hh,
            },
        );
        assert(out@ =~= codecs(c@));
        return out;
    }
    let mut i: usize = 0;
    while i < c.video_formats.len()
        invariant
            i <= c.video_formats@.len(),
            out@ == c.video_formats@.take(i as int),
        decreases c.video_formats@.len() - i,
    {
        out.push(c.video_formats[i]);
        i = i + 1;
        assert(out@ =~= c.video_formats@.take(i as int));
    }
    assert(out@ =~= c.video_formats@);
    out
}

fn push_offers(out: &mut Vec<(VideoTable, u32, VideoMode)>, table: VideoTable, mask: u32)
    ensures
        final(out)@ == old(out)@ + offers_from(table, mask, 0),
{
    let ghost whole = out@ + offers_from(table, mask, 0);
    let mut bit: u32 = 0;
    while bit < 32
        invariant
            bit <= 32,
            out@ + offers_from(table, mask, bit) == whole,
        decreases 32 - bit,
    {
        let ghost before = out@;
        let mode = match table {
            VideoTable::Cea => cea_mode(bit),
            VideoTable::Vesa => vesa_mode(bit),
            VideoTable::Hh => hh_mode(bit),
        };
        if mask & (1u32 << bit) != 0 {
            if let Some(mode) = mode {
                out.push((table, 1u32 << bit, mode));
                assert(out@ + offers_from(table, mask, (bit + 1) as u32) =~= before + offers_from(
                    table,
                    mask,
                    bit,
                ));
            }
        }
        bit = bit + 1;
    }
    assert(out@ =~= whole);
}

fn table_modes(c: &VideoCodecCaps) -> (r: Vec<(VideoTable, u32, VideoMode)>)
    ensures
        r@ == offers(*c),
{
    let mut out: Vec<(VideoTable, u32, VideoMode)> = Vec::new();
    push_offers(&mut out, VideoTable::Cea, c.cea);
    push_offers(&mut out, VideoTable::Vesa, c.vesa);
    push_offers(&mut out, VideoTable::Hh, c.hh);
    assert(out@ =~= offers(*c));
    out
}

/// Every progressive mode advertised across the CEA, VESA and handheld tables.
pub fn sink_modes(c: &SinkCaps) -> (r: Vec<VideoMode>)
    ensures
        r@ == modes_from(codecs(c@), 0),
{
    let cs = codec_formats(c);
    let mut out: Vec<VideoMode> = Vec::new();
    let ghost whole = modes_from(cs@, 0);
    let mut i: usize = 0;
    assert(out@ + modes_from(cs@, 0) =~= whole);
    while i < cs.len()
        invariant
            i <= cs@.len(),
            out@ + modes_from(cs@, i as int) == whole,
        decreases cs@.len() - i,
    {
        let os = table_modes(&cs[i]);
        let ghost before = out@;
        let mut j: usize = 0;
        while j < os.len()
            invariant
                j <= os@.len(),
                out@ == before + offered_modes(os@).take(j as int),
            decreases os@.len() - j,
        {
            out.push(os[j].2);
            j = j + 1;
            assert(out@ =~= before + offered_modes(os@).take(j as int));
        }
        assert(out@ =~= before + offered_modes(os@));
        assert(out@ + modes_from(cs@, i + 1) =~= before + modes_from(cs@, i as int));
        i = i + 1;
    }
    assert(out@ =~= whole);
    out
}

// ---- what a mode costs ----

/// The macroblocks per second of a mode.
pub open spec fn macroblock_rate(m: VideoMode) -> nat {
    (((m.width + 15) / 16) * ((m.height + 15) / 16) * m.fps) as nat
}

/// The smallest H.264 level that can carry the mode's macroblock rate: 3.1,
/// 3.2, 4.0 or 4.2.
pub open spec fn level_for(m: VideoMode) -> Option<u8> {
    let rate = macroblock_rate(m);
    if rate <= 108_000 {
        Some(0x01)
    } else if rate <= 216_000 {
        Some(0x02)
    } else if rate <= 245_760 {
        Some(0x04)
    } else if rate <= 522_240 {
        Some(0x10)
    } else {
        None
    }
}

fn level_of(m: VideoMode) -> (r: Option<u8>)
    ensures
        r == level_for(m),
{
    let a: u128 = (m.width as u128 + 15) / 16;
    let b: u128 = (m.height as u128 + 15) / 16;
    assert(a * b <= 0x1000_0000 * 0x1000_0000) by (nonlinear_arith)
        requires
            a <= 0x1000_0000,
            b <= 0x1000_0000,
    ;
    let ab: u128 = a * b;
    assert(ab * m.fps <= 0x100_0000_0000_0000 * 0xffff_ffff) by (nonlinear_arith)
        requires
            ab <= 0x100_0000_0000_0000,
            m.fps <= 0xffff_ffff,
    ;
    let rate: u128 = ab * m.fps as u128;
    if rate <= 108_000 {
        Some(0x01)
    } else if rate <= 216_000 {
        Some(0x02)
    } else if rate <= 245_760 {
        Some(0x04)
    } else if rate <= 522_240 {
        Some(0x10)
    } else {
        None
    }
}

/// Smallest WFD H.264 level that can carry the mode's macroblock rate.
pub fn required_level(mode: VideoMode) -> (r: Option<u8>)
    requires
        macroblock_rate(mode) <= u32::MAX,
    ensures
        r == level_for(mode),
{
    level_of(mode)
}

/// The place of the highest known level in a level bitmap, from 0 for 3.1 to 4
/// for 4.2; -1 when there is none.
pub open spec fn rank(level: u8) -> int {
    if level & 0x10 != 0 {
        4
    } else if level & 0x08 != 0 {
        3
    } else if level & 0x04 != 0 {
        2
    } else if level & 0x02 != 0 {
        1
    } else if level & 0x01 != 0 {
        0
    } else {
        -1
    }
}

fn level_rank(level: u8) -> (r: i32)
    ensures
        r == rank(level),
{
    if level & 0x10 != 0 {
        4
    } else if level & 0x08 != 0 {
        3
    } else if level & 0x04 != 0 {
        2
    } else if level & 0x02 != 0 {
        1
    } else if level & 0x01 != 0 {
        0
    } else {
        -1
    }
}

/// The pixels per second of a mode.
pub open spec fn pixel_rate(m: VideoMode) -> nat {
    (m.width * m.height * m.fps) as nat
}

/// What a mode costs in Mbit/s: pixels times frames over six million, at least
/// one, as sixteen bits.
pub open spec fn cost(m: VideoMode) -> u16 {
    let n = pixel_rate(m) / 6_000_000;
    ((if n < 1 {
        1nat
    } else {
        n
    }) % 65536) as u16
}

/// What one mode costs, roughly, in Mbit/s.
///
/// A formula rather than a table of magic numbers: pixels times frames, scaled
/// so that 1080p60 lands near 20 Mbit/s, which is about what H.264 needs for a
/// desktop at that size. It only has to be good enough to keep us from
/// proposing a mode a display has already said it cannot carry.
pub fn needs_mbps(m: VideoMode) -> (r: u16)
    requires
        pixel_rate(m) <= u64::MAX,
    ensures
        r == cost(m),
{
    assert(m.width * m.height <= 0xffff_ffff * 0xffff_ffff) by (nonlinear_arith)
        requires
            m.width <= 0xffff_ffff,
            m.height <= 0xffff_ffff,
    ;
    let area: u64 = m.width as u64 * m.height as u64;
    let bits: u64 = area * m.fps as u64;
    let n: u64 = bits / 6_000_000;
    let n: u64 = if n < 1 {
        1
    } else {
        n
    };
    (n % 65536) as u16
}


// ---- what we offer ----

/// The modes we are willing to encode.
pub open spec fn encodable() -> Seq<VideoMode> {
    seq![
        video_mode(1920, 1080, 60),
        video_mode(1920, 1080, 30),
        video_mode(1280, 720, 60),
        video_mode(1280, 720, 30),
        video_mode(1366, 768, 60),
        video_mode(1366, 768, 30),
        video_mode(1024, 768, 60),
        video_mode(1024, 768, 30),
        video_mode(960, 540, 60),
        video_mode(960, 540, 30),
        video_mode(640, 480, 60),
        video_mode(640, 360, 60),
        video_mode(640, 360, 30),
    ]
}

/// Whether `a` is preferred to `b`. Quality prefers a bigger picture and then a
/// faster one; Game prefers a faster one and then a bigger one.
pub open spec fn better(mode: Mode, a: VideoMode, b: VideoMode) -> bool {
    match mode {
        Mode::Quality => a.height > b.height || (a.height == b.height && a.fps > b.fps),
        Mode::Game => a.fps > b.fps || (a.fps == b.fps && a.height > b.height),
    }
}

/// The first place from `j` on whose mode `m` is preferred to, or the end.
pub open spec fn place(mode: Mode, s: Seq<VideoMode>, m: VideoMode, j: int) -> int
    decreases s.len() - j,
{
    if j >= s.len() {
        s.len() as int
    } else if better(mode, m, s[j]) {
        j
    } else {
        place(mode, s, m, j + 1)
    }
}

/// The first `n` modes in order of preference; equally good ones keep their
/// order.
pub open spec fn ranked(mode: Mode, all: Seq<VideoMode>, n: int) -> Seq<VideoMode>
    decreases n,
{
    if n <= 0 {
        Seq::empty()
    } else {
        let s = ranked(mode, all, n - 1);
        s.insert(place(mode, s, all[n - 1], 0), all[n - 1])
    }
}

/// The modes from `i` on that cost no more than the ceiling.
pub open spec fn affordable(s: Seq<VideoMode>, ceiling: Option<u16>, i: int) -> Seq<VideoMode>
    decreases s.len() - i,
{
    if i >= s.len() {
        Seq::empty()
    } else if ceiling matches Some(c) && cost(s[i]) > c {
        affordable(s, ceiling, i + 1)
    } else {
        seq![s[i]] + affordable(s, ceiling, i + 1)
    }
}

/// What we would propose: the encodable modes, the best first, without those
/// that cost too much.
pub open spec fn proposals(mode: Mode, ceiling: Option<u16>) -> Seq<VideoMode> {
    affordable(ranked(mode, encodable(), encodable().len() as int), ceiling, 0)
}

/// Whether a mode is small enough for its cost to be reckoned in 64 bits.
pub open spec fn modest(m: VideoMode) -> bool {
    m.width <= 1920 && m.height <= 1080 && m.fps <= 60
}

proof fn lemma_modest(m: VideoMode)
    requires
        modest(m),
    ensures
        pixel_rate(m) <= 1920 * 1080 * 60,
{
    let w = m.width as int;
    let h = m.height as int;
    let f = m.fps as int;
    assert(w * h <= 1920 * 1080) by (nonlinear_arith)
        requires
            0 <= w <= 1920,
            0 <= h <= 1080,
    ;
    assert(w * h * f <= 1920 * 1080 * 60) by (nonlinear_arith)
        requires
            0 <= w * h <= 1920 * 1080,
            0 <= f <= 60,
    ;
}

pub proof fn lemma_place(mode: Mode, s: Seq<VideoMode>, m: VideoMode, j: int)
    requires
        0 <= j <= s.len(),
    ensures
        j <= place(mode, s, m, j) <= s.len(),
        forall|k: int| j <= k < place(mode, s, m, j) ==> !better(mode, m, #[trigger] s[k]),
        place(mode, s, m, j) < s.len() ==> better(mode, m, s[place(mode, s, m, j)]),
    decreases s.len() - j,
{
    if j < s.len() && !better(mode, m, s[j]) {
        lemma_place(mode, s, m, j + 1);
    }
}

fn is_better(mode: Mode, a: VideoMode, b: VideoMode) -> (r: bool)
    ensures
        r == better(mode, a, b),
{
    match mode {
        Mode::Quality => a.height > b.height || (a.height == b.height && a.fps > b.fps),
        Mode::Game => a.fps > b.fps || (a.fps == b.fps && a.height > b.height),
    }
}

/// Sorts modes by preference; equally good ones keep their order.
fn rank_modes(mode: Mode, all: &Vec<VideoMode>) -> (r: Vec<VideoMode>)
    ensures
        r@ == ranked(mode, all@, all@.len() as int),
{
    let mut out: Vec<VideoMode> = Vec::new();
    let mut n: usize = 0;
    while n < all.len()
        invariant
            n <= all@.len(),
            out@ == ranked(mode, all@, n as int),
        decreases all@.len() - n,
    {
        let m = all[n];
        let mut j: usize = 0;
        while j < out.len() && !is_better(mode, m, out[j])
            invariant
                j <= out@.len(),
                place(mode, out@, m, 0) == place(mode, out@, m, j as int),
            decreases out@.len() - j,
        {
            j = j + 1;
        }
        out.insert(j, m);
        n = n + 1;
    }
    out
}

fn encodable_modes() -> (all: Vec<VideoMode>)
    ensures
        all@ == encodable(),
{
    let mut all: Vec<VideoMode> = Vec::new();
    all.push(VideoMode { width: 1920, height: 1080, fps: 60 });
    all.push(VideoMode { width: 1920, height: 1080, fps: 30 });
    all.push(VideoMode { width: 1280, height: 720, fps: 60 });
    all.push(VideoMode { width: 1280, height: 720, fps: 30 });
    all.push(VideoMode { width: 1366, height: 768, fps: 60 });
    all.push(VideoMode { width: 1366, height: 768, fps: 30 });
    all.push(VideoMode { width: 1024, height: 768, fps: 60 });
    all.push(VideoMode { width: 1024, height: 768, fps: 30 });
    all.push(VideoMode { width: 960, height: 540, fps: 60 });
    all.push(VideoMode { width: 960, height: 540, fps: 30 });
    all.push(VideoMode { width: 640, height: 480, fps: 60 });
    all.push(VideoMode { width: 640, height: 360, fps: 60 });
    all.push(VideoMode { width: 640, height: 360, fps: 30 });
    assert(all@ =~= encodable());
    all
}

/// Ranking neither adds nor loses a mode.
pub proof fn law_ranking_keeps_every_mode(mode: Mode, all: Seq<VideoMode>, n: int)
    requires
        0 <= n <= all.len(),
    ensures
        ranked(mode, all, n).len() == n,
        ranked(mode, all, n).to_multiset() == all.take(n).to_multiset(),
    decreases n,
{
    broadcast use vstd::seq_lib::group_to_multiset_ensures;

    if n > 0 {
        law_ranking_keeps_every_mode(mode, all, n - 1);
        let s = ranked(mode, all, n - 1);
        lemma_place(mode, s, all[n - 1], 0);
        let k = place(mode, s, all[n - 1], 0);
        vstd::seq_lib::to_multiset_insert(s, k, all[n - 1]);
        assert(all.take(n) =~= all.take(n - 1).push(all[n - 1]));
    } else {
        assert(ranked(mode, all, n) =~= all.take(n));
    }
}

/// A ranked mode is one of the modes that were ranked.
proof fn lemma_ranked_from(mode: Mode, all: Seq<VideoMode>, n: int)
    requires
        0 <= n <= all.len(),
    ensures
        forall|i: int|
            0 <= i < ranked(mode, all, n).len() ==> all.contains(
                #[trigger] ranked(mode, all, n)[i],
            ),
    decreases n,
{
    if n > 0 {
        lemma_ranked_from(mode, all, n - 1);
        let s = ranked(mode, all, n - 1);
        lemma_place(mode, s, all[n - 1], 0);
        let k = place(mode, s, all[n - 1], 0);
        let r = ranked(mode, all, n);
        assert forall|i: int| 0 <= i < r.len() implies all.contains(#[trigger] r[i]) by {
            if i < k {
                assert(r[i] == s[i]);
            } else if i > k {
                assert(r[i] == s[i - 1]);
            } else {
                assert(r[i] == all[n - 1]);
            }
        }
    }
}

/// Every mode we are willing to encode, in the order we would rather have
/// them, dropping any the display cannot carry.
///
/// The ordering is what the Game/Quality toggle already means everywhere else
/// in castr: Quality prefers a bigger picture, which keeps text legible, and
/// Game prefers a faster one, which keeps motion smooth.
pub fn our_modes(mode: Mode, ceiling_mbps: Option<u16>) -> (r: Vec<VideoMode>)
    ensures
        r@ == proposals(mode, ceiling_mbps),
{
    let all = encodable_modes();
    let sorted = rank_modes(mode, &all);
    proof {
        lemma_ranked_from(mode, all@, all@.len() as int);
        assert(forall|i: int| 0 <= i < all@.len() ==> modest(#[trigger] all@[i]));
    }
    let mut out: Vec<VideoMode> = Vec::new();
    let mut i: usize = 0;
    assert(out@ + affordable(sorted@, ceiling_mbps, 0) =~= proposals(mode, ceiling_mbps));
    while i < sorted.len()
        invariant
            i <= sorted@.len(),
            forall|k: int| 0 <= k < sorted@.len() ==> all@.contains(#[trigger] sorted@[k]),
            forall|k: int| 0 <= k < all@.len() ==> modest(#[trigger] all@[k]),
            out@ + affordable(sorted@, ceiling_mbps, i as int) == proposals(mode, ceiling_mbps),
        decreases sorted@.len() - i,
    {
        let m = sorted[i];
        let ghost before = out@;
        proof {
            let k = choose|k: int| 0 <= k < all@.len() && all@[k] == m;
            assert(modest(all@[k]));
            lemma_modest(m);
        }
        let keep = match ceiling_mbps {
            Some(c) => needs_mbps(m) <= c,
            None => true,
        };
        if keep {
            out.push(m);
            assert(out@ + affordable(sorted@, ceiling_mbps, i + 1) =~= before + affordable(
                sorted@,
                ceiling_mbps,
                i as int,
            ));
        }
        i = i + 1;
    }
    assert(out@ =~= proposals(mode, ceiling_mbps));
    out
}

// ---- choosing ----

/// The profile to use with a codec: constrained baseline if it is there, else
/// constrained high, else none.
pub open spec fn profile_for(c: VideoCodecCaps) -> u8 {
    if c.profile & 0x01 != 0 {
        0x01
    } else if c.profile & 0x02 != 0 {
        0x02
    } else {
        0
    }
}

/// The first offer of a mode from `i` on.
pub open spec fn offer_of(os: Seq<Offer>, wanted: VideoMode, i: int) -> Option<Offer>
    decreases os.len() - i,
{
    if i >= os.len() {
        None
    } else if os[i].2 == wanted {
        Some(os[i])
    } else {
        offer_of(os, wanted, i + 1)
    }
}

/// How one codec can carry a mode that needs a level, if it can.
pub open spec fn carried_by(c: VideoCodecCaps, wanted: VideoMode, level: u8) -> Option<
    ModeSelection,
> {
    if profile_for(c) == 0 || rank(level) > rank(c.level) {
        None
    } else {
        match offer_of(offers(c), wanted, 0) {
            Some(o) => Some(
                ModeSelection {
                    mode: o.2,
                    table: o.0,
                    bit: o.1,
                    profile: profile_for(c),
                    level,
                },
            ),
            None => None,
        }
    }
}

/// How the first of the codecs from `i` on that can carry a mode does.
pub open spec fn carried_from(
    cs: Seq<VideoCodecCaps>,
    wanted: VideoMode,
    level: u8,
    i: int,
) -> Option<ModeSelection>
    decreases cs.len() - i,
{
    if i >= cs.len() {
        None
    } else {
        match carried_by(cs[i], wanted, level) {
            Some(sel) => Some(sel),
            None => carried_from(cs, wanted, level, i + 1),
        }
    }
}

/// How a display can carry a mode, if it can.
pub open spec fn acceptable(sink: SinkCapsView, wanted: VideoMode) -> Option<ModeSelection> {
    match level_for(wanted) {
        Some(level) => carried_from(codecs(sink), wanted, level, 0),
        None => None,
    }
}

/// The first of our modes from `i` on that a display can carry.
pub open spec fn selected(sink: SinkCapsView, ours: Seq<VideoMode>, i: int) -> Option<
    ModeSelection,
>
    decreases ours.len() - i,
{
    if i >= ours.len() {
        None
    } else {
        match acceptable(sink, ours[i]) {
            Some(sel) => Some(sel),
            None => selected(sink, ours, i + 1),
        }
    }
}

fn carry(c: &VideoCodecCaps, wanted: VideoMode, level: u8) -> (r: Option<ModeSelection>)
    ensures
        r == carried_by(*c, wanted, level),
{
    let profile: u8 = if c.profile & 0x01 != 0 {
        0x01
    } else if c.profile & 0x02 != 0 {
        0x02
    } else {
        0
    };
    if profile == 0 || level_rank(level) > level_rank(c.level) {
        return None;
    }
    let os = table_modes(c);
    let mut i: usize = 0;
    while i < os.len()
        invariant
            i <= os@.len(),
            offer_of(os@, wanted, 0) == offer_of(os@, wanted, i as int),
            os@ == offers(*c),
            profile == profile_for(*c),
            profile != 0,
            rank(level) <= rank(c.level),
        decreases os@.len() - i,
    {
        let (table, bit, mode) = os[i];
        if mode == wanted {
            return Some(ModeSelection { mode, table, bit, profile, level });
        }
        i = i + 1;
    }
    None
}

/// Our modes in preference order; the first the display also offers wins.
pub fn choose_selection(sink: &SinkCaps, ours: &[VideoMode]) -> (r: Result<
    ModeSelection,
    NoCommonFormat,
>)
    ensures
        r is Ok <==> selected(sink@, ours@, 0) is Some,
        r matches Ok(sel) ==> selected(sink@, ours@, 0) == Some(sel),
        r matches Err(e) ==> e.sink_offered@ == modes_from(codecs(sink@), 0) && e.we_offered@
            == ours@,
{
    let cs = codec_formats(sink);
    let mut i: usize = 0;
    while i < ours.len()
        invariant
            i <= ours@.len(),
            cs@ == codecs(sink@),
            selected(sink@, ours@, 0) == selected(sink@, ours@, i as int),
        decreases ours@.len() - i,
    {
        if let Some(level) = level_of(ours[i]) {
            let mut k: usize = 0;
            while k < cs.len()
                invariant
                    i < ours@.len(),
                    k <= cs@.len(),
                    cs@ == codecs(sink@),
                    level_for(ours@[i as int]) == Some(level),
                    selected(sink@, ours@, 0) == selected(sink@, ours@, i as int),
                    acceptable(sink@, ours@[i as int]) == carried_from(
                        cs@,
                        ours@[i as int],
                        level,
                        k as int,
                    ),
                decreases cs@.len() - k,
            {
                if let Some(sel) = carry(&cs[k], ours[i], level) {
                    return Ok(sel);
                }
                k = k + 1;
            }
        }
        i = i + 1;
    }
    let mut we_offered: Vec<VideoMode> = Vec::new();
    let mut j: usize = 0;
    while j < ours.len()
        invariant
            j <= ours@.len(),
            we_offered@ == ours@.take(j as int),
        decreases ours@.len() - j,
    {
        we_offered.push(ours[j]);
        j = j + 1;
        assert(we_offered@ =~= ours@.take(j as int));
    }
    assert(we_offered@ =~= ours@);
    Err(NoCommonFormat { sink_offered: sink_modes(sink), we_offered })
}

pub fn choose_mode(sink: &SinkCaps, ours: &[VideoMode]) -> (r: Result<VideoMode, NoCommonFormat>)
    ensures
        r is Ok <==> selected(sink@, ours@, 0) is Some,
        r matches Ok(mode) ==> selected(sink@, ours@, 0) matches Some(sel) && sel.mode == mode,
        r matches Err(e) ==> e.sink_offered@ == modes_from(codecs(sink@), 0) && e.we_offered@
            == ours@,
{
    match choose_selection(sink, ours) {
        Ok(sel) => Ok(sel.mode),
        Err(e) => Err(e),
    }
}

/// The bit of the first index from `b` on of the CEA table that stands for a
/// mode.
pub open spec fn bit_from(mode: VideoMode, b: u32) -> Option<u32>
    decreases 32 - b,
{
    if b >= 32 {
        None
    } else if cea(b) == Some(mode) {
        Some(1u32 << b)
    } else {
        bit_from(mode, (b + 1) as u32)
    }
}

/// The CEA bit standing for a mode, for the body that selects it.
pub fn mode_bit(mode: VideoMode) -> (r: Option<u32>)
    ensures
        r == bit_from(mode, 0),
{
    let mut b: u32 = 0;
    while b < 32
        invariant
            b <= 32,
            bit_from(mode, 0) == bit_from(mode, b),
        decreases 32 - b,
    {
        match cea_mode(b) {
            Some(m) => if m == mode {
                return Some(1u32 << b);
            },
            None => {},
        }
        b = b + 1;
    }
    None
}

} // verus!
