//! The software codec: OpenH264.
use vstd::prelude::*;
use openh264::decoder::Decoder;
use openh264::encoder::{Encoder, EncoderConfig as OhConfig, FrameType, RateControlMode, UsageType};
use openh264::formats::{YUVSlices, YUVSource};
use openh264::OpenH264API;
use crate::media::codec::{
    encoded_view, EncodedFrame, EncodedFrameView, EncoderConfig, Mode, PixelFormat, RawFrame,
    RawFrameView,
};
use crate::media::crop::{lemma_rows, push_rows, rows};
use crate::wire::part;

verus! {

/// The encoder of `openh264`.
#[verifier::external_type_specification]
#[verifier::external_body]
pub struct ExEncoder(openh264::encoder::Encoder);

/// The decoder of `openh264`.
#[verifier::external_type_specification]
#[verifier::external_body]
pub struct ExDecoder(openh264::decoder::Decoder);

/// What `openh264` reports when something fails.
#[verifier::external_type_specification]
#[verifier::external_body]
pub struct ExOpenH264Error(openh264::Error);

/// What went wrong in the codec.
#[derive(Debug, Clone, Copy, PartialEq, Eq, Structural)]
pub enum SwError {
    /// Not a picture the encoder takes.
    Format,
    /// A picture of another size than the encoder was made for.
    Size,
    EncoderInit,
    Encode,
    DecoderInit,
    Decode,
    /// The decoder's planes do not hold the picture it announces.
    Planes,
}

impl SwError {
    pub open spec fn text(self) -> Seq<char> {
        match self {
            SwError::Format => "SwEncoder expects I420"@,
            SwError::Size => "frame size mismatch"@,
            SwError::EncoderInit => "openh264 encoder init"@,
            SwError::Encode => "openh264 encode"@,
            SwError::DecoderInit => "openh264 decoder init"@,
            SwError::Decode => "openh264 decode"@,
            SwError::Planes => "openh264 picture"@,
        }
    }

    pub fn message(&self) -> (s: &'static str)
        ensures
            s@ == self.text(),
    {
        match self {
            SwError::Format => "SwEncoder expects I420",
            SwError::Size => "frame size mismatch",
            SwError::EncoderInit => "openh264 encoder init",
            SwError::Encode => "openh264 encode",
            SwError::DecoderInit => "openh264 decoder init",
            SwError::Decode => "openh264 decode",
            SwError::Planes => "openh264 picture",
        }
    }
}

/// How the encoder coded a picture.
#[derive(Debug, Clone, Copy, PartialEq, Eq, Structural)]
pub enum FrameKind {
    Invalid,
    Idr,
    I,
    P,
    Skip,
    IpMixed,
}

// ---- the encoder ----

/// What an encoder is told to expect.
#[derive(Debug, Clone, Copy, PartialEq, Eq, Structural)]
pub enum Content {
    Camera,
    Screen,
}

/// What an encoder steers by.
#[derive(Debug, Clone, Copy, PartialEq, Eq, Structural)]
pub enum Steering {
    Quality,
    Bitrate,
}

/// What a native encoder is made with.
#[derive(Debug, Clone, Copy, PartialEq, Eq, Structural)]
pub struct Settings {
    pub content: Content,
    pub steering: Steering,
    pub bitrate_bps: u32,
    pub max_fps: u32,
    /// Whether a frame may be left out to keep the rate.
    pub skip_frames: bool,
}

/// The settings for a configuration: screen content in real time that keeps to
/// the bit rate and leaves no frame out. Keyframes come when they are asked for.
pub open spec fn settings_of(cfg: EncoderConfig) -> Settings {
    Settings {
        content: Content::Screen,
        steering: Steering::Bitrate,
        bitrate_bps: cfg.bitrate_bps,
        max_fps: cfg.fps,
        skip_frames: false,
    }
}

/// The settings for a configuration.
pub fn settings(cfg: &EncoderConfig) -> (s: Settings)
    ensures
        s == settings_of(*cfg),
{
    Settings {
        content: Content::Screen,
        steering: Steering::Bitrate,
        bitrate_bps: cfg.bitrate_bps,
        max_fps: cfg.fps,
        skip_frames: false,
    }
}

/// The settings that an encoder was made with.
pub uninterp spec fn encoder_settings(e: openh264::encoder::Encoder) -> Settings;

/// Whether an encoder has been asked for an intra frame that it has not coded
/// yet.
pub uninterp spec fn intra_asked(e: openh264::encoder::Encoder) -> bool;

/// Whether these bits, for a frame of this kind, are something that an encoder
/// with these settings may write for the picture of `w` by `h` in these planes.
pub uninterp spec fn may_encode(
    s: Settings,
    y: Seq<u8>,
    u: Seq<u8>,
    v: Seq<u8>,
    w: usize,
    h: usize,
    bits: Seq<u8>,
    kind: FrameKind,
) -> bool;

/// Calls `Encoder::with_api_config` with a configuration made of the settings,
/// each of which `EncoderConfig` has a setter for. Whether an encoder can be
/// made is up to the native library, so nothing is said of that.
#[verifier::external_body]
fn make_encoder(s: Settings) -> (r: Result<Encoder, openh264::Error>)
    ensures
        r matches Ok(e) ==> encoder_settings(e) == s,
{
    let usage = match s.content {
        Content::Camera => UsageType::CameraVideoRealTime,
        Content::Screen => UsageType::ScreenContentRealTime,
    };
    let mode = match s.steering {
        Steering::Quality => RateControlMode::Quality,
        Steering::Bitrate => RateControlMode::Bitrate,
    };
    let oh = OhConfig::new().usage_type(usage).rate_control_mode(mode);
    let oh = oh.set_bitrate_bps(s.bitrate_bps).max_frame_rate(s.max_fps as _);
    Encoder::with_api_config(OpenH264API::from_source(), oh.enable_skip_frame(s.skip_frames))
}

/// Calls `Encoder::force_intra_frame`, which asks for the next frame to be an
/// intra frame and leaves the settings alone.
#[verifier::external_body]
fn ask_intra(e: &mut Encoder)
    ensures
        intra_asked(*final(e)),
        encoder_settings(*final(e)) == encoder_settings(*old(e)),
{
    e.force_intra_frame();
}

/// Calls `Encoder::encode` on three planes, and reads what it wrote and the
/// kind of frame. The settings stay. Where an intra frame was asked for and
/// anything was written, the frame is one. The bits and the kind depend on the
/// encoder's past and on the machine: they are only said to be something that an
/// encoder with its settings may write for these planes, and nothing is said of
/// when it fails.
#[verifier::external_body]
fn run_encoder(
    e: &mut Encoder,
    y: &[u8],
    u: &[u8],
    v: &[u8],
    w: usize,
    h: usize,
    chroma: usize,
) -> (r: Result<(Vec<u8>, FrameKind), openh264::Error>)
    requires
        w <= i32::MAX,
        h <= i32::MAX,
        chroma == w / 2,
        y@.len() == w * h,
        u@.len() == (h / 2) * chroma,
        v@.len() == (h / 2) * chroma,
    ensures
        encoder_settings(*final(e)) == encoder_settings(*old(e)),
        r matches Ok(out) ==> may_encode(
            encoder_settings(*old(e)),
            y@,
            u@,
            v@,
            w,
            h,
            out.0@,
            out.1,
        ),
        r matches Ok(out) ==> intra_asked(*old(e)) && out.0@.len() > 0 ==> is_key(out.1),
{
    let bs = e.encode(&YUVSlices::new((y, u, v), (w, h), (w, chroma, chroma)))?;
    let kind = match bs.frame_type() {
        FrameType::Invalid => FrameKind::Invalid,
        FrameType::IDR => FrameKind::Idr,
        FrameType::I => FrameKind::I,
        FrameType::P => FrameKind::P,
        FrameType::Skip => FrameKind::Skip,
        FrameType::IPMixed => FrameKind::IpMixed,
    };
    Ok((bs.to_vec(), kind))
}

/// Whether a frame can be decoded without any before it.
pub open spec fn is_key(kind: FrameKind) -> bool {
    kind == FrameKind::Idr || kind == FrameKind::I
}

/// Whether a picture's bytes hold three planes of I420.
pub open spec fn holds_i420(data: Seq<u8>, w: int, h: int) -> bool {
    w * h + w * h / 2 <= data.len()
}

/// The luma plane.
pub open spec fn luma(data: Seq<u8>, w: int, h: int) -> Seq<u8> {
    data.subrange(0, w * h)
}

/// The plane of blue: it begins after the luma.
pub open spec fn blue(data: Seq<u8>, w: int, h: int) -> Seq<u8> {
    data.subrange(w * h, w * h + (h / 2) * (w / 2))
}

/// The plane of red: it begins a quarter of the luma's size after the blue.
pub open spec fn red(data: Seq<u8>, w: int, h: int) -> Seq<u8> {
    data.subrange(w * h + w * h / 4, w * h + w * h / 4 + (h / 2) * (w / 2))
}

/// What the encoder's answer comes to.
pub open spec fn coded(bits: Seq<u8>, kind: FrameKind, timestamp_us: u64) -> Option<
    EncodedFrameView,
> {
    if bits.len() == 0 {
        None
    } else {
        Some(
            EncodedFrameView {
                data: bits,
                keyframe: is_key(kind),
                timestamp_us,
            },
        )
    }
}

/// The frame that the encoder's answer is, if it wrote anything.
pub fn coded_frame(bits: Vec<u8>, kind: FrameKind, timestamp_us: u64) -> (r: Option<EncodedFrame>)
    ensures
        encoded_view(r) == coded(bits@, kind, timestamp_us),
{
    if bits.len() == 0 {
        return None;
    }
    let keyframe = matches!(kind, FrameKind::Idr | FrameKind::I);
    Some(EncodedFrame { data: bits, keyframe, timestamp_us })
}

/// Whether this is what an answer of the encoder comes to: one that it may give
/// for the planes of a picture, and a keyframe where one was due.
pub open spec fn answered(
    s: Settings,
    key_due: bool,
    f: RawFrameView,
    unit: Option<EncodedFrameView>,
) -> bool {
    exists|bits: Seq<u8>, kind: FrameKind| #[trigger]
        may_encode(
            s,
            luma(f.data, f.width as int, f.height as int),
            blue(f.data, f.width as int, f.height as int),
            red(f.data, f.width as int, f.height as int),
            f.width as usize,
            f.height as usize,
            bits,
            kind,
        ) && unit == coded(bits, kind, f.timestamp_us) && (key_due && bits.len() > 0 ==> is_key(
            kind,
        ))
}

/// What a picture is refused for, if it is.
pub open spec fn refused(cfg: EncoderConfig, f: RawFrameView) -> Option<SwError> {
    if f.format != PixelFormat::I420 {
        Some(SwError::Format)
    } else if f.width != cfg.width || f.height != cfg.height {
        Some(SwError::Size)
    } else {
        None
    }
}

pub struct SwEncoder {
    cfg: EncoderConfig,
    inner: Encoder,
    force_key: bool,
}

#[verifier::ext_equal]
pub struct SwEncoderState {
    pub cfg: EncoderConfig,
    /// The next frame is to be a keyframe.
    pub force_key: bool,
    /// What the native encoder was made with.
    pub settings: Settings,
}

impl View for SwEncoder {
    type V = SwEncoderState;

    closed spec fn view(&self) -> SwEncoderState {
        SwEncoderState {
            cfg: self.cfg,
            force_key: self.force_key,
            settings: encoder_settings(self.inner),
        }
    }
}

impl SwEncoder {
    pub fn new(cfg: EncoderConfig) -> (r: Result<Self, SwError>)
        ensures
            r matches Ok(e) ==> e@ == (SwEncoderState {
                cfg,
                force_key: true,
                settings: settings_of(cfg),
            }),
            r matches Err(e) ==> e == SwError::EncoderInit,
    {
        match make_encoder(settings(&cfg)) {
            Ok(inner) => Ok(SwEncoder { cfg, inner, force_key: true }),
            Err(_) => Err(SwError::EncoderInit),
        }
    }

    /// Encodes a picture. The first frame, and the first after a keyframe was
    /// asked for or the encoder was made anew, is a keyframe.
    pub fn encode(&mut self, frame: &RawFrame) -> (r: Result<Option<EncodedFrame>, SwError>)
        requires
            refused(old(self)@.cfg, frame@) is None ==> holds_i420(
                frame.data@,
                frame.width as int,
                frame.height as int,
            ) && frame.width <= i32::MAX && frame.height <= i32::MAX,
        ensures
            refused(old(self)@.cfg, frame@) matches Some(e) ==> r == Err::<
                Option<EncodedFrame>,
                SwError,
            >(e) && final(self)@ == old(self)@,
            refused(old(self)@.cfg, frame@) is None ==> final(self)@ == (SwEncoderState {
                force_key: false,
                ..old(self)@
            }),
            refused(old(self)@.cfg, frame@) is None ==> (r matches Err(e) ==> e
                == SwError::Encode),
            r matches Ok(unit) ==> answered(
                old(self)@.settings,
                old(self)@.force_key,
                frame@,
                encoded_view(unit),
            ),
    {
        if frame.format != PixelFormat::I420 {
            return Err(SwError::Format);
        }
        if frame.width != self.cfg.width || frame.height != self.cfg.height {
            return Err(SwError::Size);
        }
        if self.force_key {
            ask_intra(&mut self.inner);
            self.force_key = false;
        }
        let w: usize = frame.width as usize;
        let h: usize = frame.height as usize;
        let data = frame.data.as_slice();
        let len: usize = data.len();
        assert(w * h + w * h / 2 <= len);
        proof {
            assert(0 <= w * h) by (nonlinear_arith);
            lemma_chroma(w as int, h as int);
        }
        let n: usize = w * h;
        let c: usize = (h / 2) * (w / 2);
        let y = part(data, 0, n);
        let u = part(data, n, n + c);
        let v = part(data, n + n / 4, n + n / 4 + c);
        match run_encoder(&mut self.inner, y, u, v, w, h, w / 2) {
            Ok((bits, kind)) => {
                let ghost written = bits@;
                let unit = coded_frame(bits, kind, frame.timestamp_us);
                proof {
                    let f = frame@;
                    assert(may_encode(
                        old(self)@.settings,
                        luma(f.data, f.width as int, f.height as int),
                        blue(f.data, f.width as int, f.height as int),
                        red(f.data, f.width as int, f.height as int),
                        f.width as usize,
                        f.height as usize,
                        written,
                        kind,
                    ));
                }
                Ok(unit)
            },
            Err(_) => Err(SwError::Encode),
        }
    }

    pub fn request_keyframe(&mut self)
        ensures
            final(self)@ == (SwEncoderState { force_key: true, ..old(self)@ }),
    {
        self.force_key = true;
    }

    /// Makes the encoder anew at another bit rate.
    pub fn set_bitrate(&mut self, bitrate_bps: u32) -> (r: Result<(), SwError>)
        ensures
            final(self)@ == remade(
                old(self)@,
                EncoderConfig { bitrate_bps, ..old(self)@.cfg },
                r is Ok,
            ),
            r matches Err(e) ==> e == SwError::EncoderInit,
    {
        self.cfg.bitrate_bps = bitrate_bps;
        self.rebuild()
    }

    /// Makes the encoder anew for another mode.
    pub fn set_mode(&mut self, mode: Mode) -> (r: Result<(), SwError>)
        ensures
            final(self)@ == remade(old(self)@, EncoderConfig { mode, ..old(self)@.cfg }, r is Ok),
            r matches Err(e) ==> e == SwError::EncoderInit,
    {
        self.cfg.mode = mode;
        self.rebuild()
    }

    fn rebuild(&mut self) -> (r: Result<(), SwError>)
        ensures
            final(self)@ == remade(old(self)@, old(self)@.cfg, r is Ok),
            r matches Err(e) ==> e == SwError::EncoderInit,
    {
        match make_encoder(settings(&self.cfg)) {
            Ok(inner) => {
                self.inner = inner;
                self.force_key = true;
                Ok(())
            },
            Err(_) => Err(SwError::EncoderInit),
        }
    }

    pub fn input_format(&self) -> (f: PixelFormat)
        ensures
            f == PixelFormat::I420,
    {
        PixelFormat::I420
    }

    pub fn name(&self) -> (s: &'static str)
        ensures
            s@ == "openh264"@,
    {
        "openh264"
    }
}

/// An encoder after an attempt to make it anew for a configuration: where that
/// failed, the native encoder goes on as it was.
pub open spec fn remade(s: SwEncoderState, cfg: EncoderConfig, made: bool) -> SwEncoderState {
    if made {
        SwEncoderState { cfg, force_key: true, settings: settings_of(cfg) }
    } else {
        SwEncoderState { cfg, ..s }
    }
}

proof fn lemma_chroma(w: int, h: int)
    requires
        w >= 0,
        h >= 0,
    ensures
        0 <= (h / 2) * (w / 2),
        4 * ((h / 2) * (w / 2)) <= w * h,
{
    assert(0 <= (h / 2) * (w / 2) && 4 * ((h / 2) * (w / 2)) <= w * h) by (nonlinear_arith)
        requires
            w >= 0,
            h >= 0,
    {
        let a = h / 2;
        let b = w / 2;
        assert(0 <= 2 * a <= h && 0 <= 2 * b <= w);
        assert((2 * a) * (2 * b) <= h * w);
    };
}

// ---- the decoder ----

/// A decoded picture, in planes with rows of their own length.
#[derive(Debug, Clone)]
pub struct Planes {
    pub width: usize,
    pub height: usize,
    pub y_stride: usize,
    pub u_stride: usize,
    pub v_stride: usize,
    pub y: Vec<u8>,
    pub u: Vec<u8>,
    pub v: Vec<u8>,
}

/// What the planes of a picture hold.
#[verifier::ext_equal]
pub struct PlanesView {
    pub width: usize,
    pub height: usize,
    pub y_stride: usize,
    pub u_stride: usize,
    pub v_stride: usize,
    pub y: Seq<u8>,
    pub u: Seq<u8>,
    pub v: Seq<u8>,
}

impl View for Planes {
    type V = PlanesView;

    open spec fn view(&self) -> PlanesView {
        PlanesView {
            width: self.width,
            height: self.height,
            y_stride: self.y_stride,
            u_stride: self.u_stride,
            v_stride: self.v_stride,
            y: self.y@,
            u: self.u@,
            v: self.v@,
        }
    }
}

/// What the native decoder, in the state it is in, answers to a packet: a
/// picture, no picture, or a failure.
pub uninterp spec fn decoded(d: openh264::decoder::Decoder, packet: Seq<u8>) -> Result<
    Option<PlanesView>,
    (),
>;

/// What an answer of the native decoder says, whatever the failure.
pub open spec fn reply_view(r: Result<Option<Planes>, openh264::Error>) -> Result<
    Option<PlanesView>,
    (),
> {
    match r {
        Ok(Some(p)) => Ok(Some(p@)),
        Ok(None) => Ok(None),
        Err(_) => Err(()),
    }
}

/// Calls `Decoder::new`. Whether a decoder can be made is up to the native
/// library, so nothing is said of it.
#[verifier::external_body]
fn make_decoder() -> (r: Result<Decoder, openh264::Error>) {
    Decoder::new()
}

/// Calls `Decoder::decode` on a packet and copies the picture out, where there
/// is one. What it answers depends on the packet and on what the decoder holds
/// of earlier ones: the answer is the one that the decoder, as it was before the
/// call, gives to the packet. Nothing is said of which answer that is, nor of
/// what the decoder holds afterwards. The length is handed on as a 32-bit
/// number, so longer packets are left out.
#[verifier::external_body]
fn run_decoder(d: &mut Decoder, packet: &[u8]) -> (r: Result<Option<Planes>, openh264::Error>)
    requires
        packet@.len() <= i32::MAX,
    ensures
        reply_view(r) == decoded(*old(d), packet@),
{
    Ok(d.decode(packet)?.map(|yuv| Planes {
        width: yuv.dimensions().0,
        height: yuv.dimensions().1,
        y_stride: yuv.strides().0,
        u_stride: yuv.strides().1,
        v_stride: yuv.strides().2,
        y: yuv.y().to_vec(),
        u: yuv.u().to_vec(),
        v: yuv.v().to_vec(),
    }))
}

/// Whether a plane holds `h` rows of `w` bytes, `stride` apart.
pub open spec fn holds_rows(len: int, stride: int, w: int, h: int) -> bool {
    h > 0 ==> (h - 1) * stride + w <= len
}

impl PlanesView {
    /// Whether the planes hold the picture that is announced.
    pub open spec fn complete(self) -> bool {
        &&& holds_rows(
            self.y.len() as int,
            self.y_stride as int,
            self.width as int,
            self.height as int,
        )
        &&& holds_rows(
            self.u.len() as int,
            self.u_stride as int,
            self.width as int / 2,
            self.height as int / 2,
        )
        &&& holds_rows(
            self.v.len() as int,
            self.v_stride as int,
            self.width as int / 2,
            self.height as int / 2,
        )
    }

    /// The picture without the slack at the end of the rows.
    pub open spec fn picture(self, timestamp_us: u64) -> RawFrameView {
        RawFrameView {
            format: PixelFormat::I420,
            width: self.width as u32,
            height: self.height as u32,
            stride: self.width as u32,
            data: rows(
                self.y,
                0,
                self.y_stride as int,
                self.width as int,
                self.height as int,
            ) + rows(
                self.u,
                0,
                self.u_stride as int,
                self.width as int / 2,
                self.height as int / 2,
            ) + rows(
                self.v,
                0,
                self.v_stride as int,
                self.width as int / 2,
                self.height as int / 2,
            ),
            timestamp_us,
        }
    }
}

impl Planes {
    /// The picture without the slack at the end of the rows, where the planes
    /// hold one.
    pub fn pack(&self, timestamp_us: u64) -> (r: Option<RawFrame>)
        ensures
            r is Some <==> self@.complete(),
            r matches Some(f) ==> f@ == self@.picture(timestamp_us),
    {
        let w: usize = self.width;
        let h: usize = self.height;
        if !rows_fit(self.y.len(), self.y_stride, w, h) || !rows_fit(
            self.u.len(),
            self.u_stride,
            w / 2,
            h / 2,
        ) || !rows_fit(self.v.len(), self.v_stride, w / 2, h / 2) {
            return None;
        }
        let mut data: Vec<u8> = Vec::new();
        push_rows(&mut data, self.y.as_slice(), 0, self.y_stride, w, h);
        push_rows(&mut data, self.u.as_slice(), 0, self.u_stride, w / 2, h / 2);
        push_rows(&mut data, self.v.as_slice(), 0, self.v_stride, w / 2, h / 2);
        assert(data@ =~= self@.picture(timestamp_us).data);
        Some(
            RawFrame {
                format: PixelFormat::I420,
                width: w as u32,
                height: h as u32,
                stride: w as u32,
                data,
                timestamp_us,
            },
        )
    }
}

/// Whether a plane holds `h` rows of `w` bytes, `stride` apart.
fn rows_fit(len: usize, stride: usize, w: usize, h: usize) -> (r: bool)
    ensures
        r == holds_rows(len as int, stride as int, w as int, h as int),
{
    if h == 0 {
        return true;
    }
    assert((h - 1) * stride <= 0xffff_ffff_ffff_ffff * 0xffff_ffff_ffff_ffff) by (nonlinear_arith)
        requires
            0 <= h - 1 <= 0xffff_ffff_ffff_ffff,
            0 <= stride <= 0xffff_ffff_ffff_ffff,
    ;
    (h as u128 - 1) * (stride as u128) + w as u128 <= len as u128
}

/// What is made of a native decoder's answer: nothing where there is no picture,
/// and the picture without slack where its planes hold one.
pub open spec fn answer_to(reply: Result<Option<PlanesView>, ()>, timestamp_us: u64) -> Result<
    Option<RawFrameView>,
    SwError,
> {
    match reply {
        Ok(None) => Ok(None),
        Ok(Some(p)) => if p.complete() {
            Ok(Some(p.picture(timestamp_us)))
        } else {
            Err(SwError::Planes)
        },
        Err(_) => Err(SwError::Decode),
    }
}

/// What a result of the decoder says.
pub open spec fn answer_view(r: Result<Option<RawFrame>, SwError>) -> Result<
    Option<RawFrameView>,
    SwError,
> {
    match r {
        Ok(Some(f)) => Ok(Some(f@)),
        Ok(None) => Ok(None),
        Err(e) => Err(e),
    }
}

/// What is made of a native decoder's answer.
pub fn answer(reply: Result<Option<Planes>, openh264::Error>, timestamp_us: u64) -> (r: Result<
    Option<RawFrame>,
    SwError,
>)
    ensures
        answer_view(r) == answer_to(reply_view(reply), timestamp_us),
{
    match reply {
        Ok(Some(planes)) => match planes.pack(timestamp_us) {
            Some(f) => Ok(Some(f)),
            None => Err(SwError::Planes),
        },
        Ok(None) => Ok(None),
        Err(_) => Err(SwError::Decode),
    }
}

pub struct SwDecoder {
    inner: Decoder,
}

impl SwDecoder {
    /// The native decoder, with what it holds of earlier packets.
    pub closed spec fn native(self) -> Decoder {
        self.inner
    }

    pub fn new() -> (r: Result<Self, SwError>)
        ensures
            r matches Err(e) ==> e == SwError::DecoderInit,
    {
        match make_decoder() {
            Ok(inner) => Ok(SwDecoder { inner }),
            Err(_) => Err(SwError::DecoderInit),
        }
    }

    /// Decodes one complete access unit. It may give no picture, or one.
    pub fn decode(&mut self, data: &[u8], timestamp_us: u64) -> (r: Result<
        Option<RawFrame>,
        SwError,
    >)
        requires
            data@.len() <= i32::MAX,
        ensures
            answer_view(r) == answer_to(decoded(old(self).native(), data@), timestamp_us),
    {
        answer(run_decoder(&mut self.inner, data), timestamp_us)
    }

    pub fn name(&self) -> (s: &'static str)
        ensures
            s@ == "openh264"@,
    {
        "openh264"
    }
}

// ---- laws ----

/// An encoder made anew, for another bit rate or another mode, begins with a
/// keyframe; a failed attempt changes nothing about the next frame.
pub proof fn law_fresh_starts_force_a_keyframe(s: SwEncoderState, cfg: EncoderConfig)
    ensures
        remade(s, cfg, true).force_key,
        remade(s, cfg, false).force_key == s.force_key,
{
}

/// A packed picture has no slack: it is as long as its three planes.
pub proof fn law_a_packed_picture_has_no_slack(p: PlanesView, timestamp_us: u64)
    requires
        p.complete(),
    ensures
        p.picture(timestamp_us).data.len() == p.width * p.height + 2 * ((p.width as int / 2) * (
        p.height as int / 2)),
{
    lemma_rows_len(p.y, p.y_stride as int, p.width as int, p.height as int);
    lemma_rows_len(p.u, p.u_stride as int, p.width as int / 2, p.height as int / 2);
    lemma_rows_len(p.v, p.v_stride as int, p.width as int / 2, p.height as int / 2);
    assert(p.height * p.width == p.width * p.height) by (nonlinear_arith);
    assert((p.height as int / 2) * (p.width as int / 2) == (p.width as int / 2) * (p.height as int
        / 2)) by (nonlinear_arith);
}

proof fn lemma_rows_len(src: Seq<u8>, stride: int, w: int, n: int)
    requires
        0 <= n,
        0 <= w,
        0 <= stride,
        holds_rows(src.len() as int, stride, w, n),
    ensures
        rows(src, 0, stride, w, n).len() == n * w,
    decreases n,
{
    if n > 0 {
        assert((n - 1) * stride >= 0) by (nonlinear_arith)
            requires
                n > 0,
                stride >= 0,
        ;
        assert(n - 1 > 0 ==> (n - 2) * stride <= (n - 1) * stride) by (nonlinear_arith)
            requires
                n > 0,
                stride >= 0,
        ;
        lemma_rows_len(src, stride, w, n - 1);
        assert((n - 1) * w + w == n * w) by (nonlinear_arith);
    } else {
        assert(0 * w == 0) by (nonlinear_arith);
    }
}

/// The planes of a picture lie one behind the other: luma, then blue, then red, the
/// latter two a quarter of it each.
pub proof fn law_the_planes_of_a_picture(data: Seq<u8>, w: int, h: int, k: int)
    requires
        w >= 0,
        h >= 0,
        w % 2 == 0,
        h % 2 == 0,
        2 * data.len() == 3 * (w * h),
    ensures
        holds_i420(data, w, h),
        luma(data, w, h).len() == w * h,
        4 * blue(data, w, h).len() == w * h,
        4 * red(data, w, h).len() == w * h,
        0 <= k < w * h ==> luma(data, w, h)[k] == data[k],
        0 <= 4 * k < w * h ==> blue(data, w, h)[k] == data[w * h + k] && red(data, w, h)[k]
            == data[w * h + w * h / 4 + k],
{
    let (a, b) = (w / 2, h / 2);
    assert(w * h == 4 * (b * a)) by (nonlinear_arith)
        requires
            w == 2 * a,
            h == 2 * b,
    ;
    assert(b * a >= 0) by (nonlinear_arith)
        requires
            a >= 0,
            b >= 0,
    ;
}

/// A picture that is packed keeps every byte in its place: luma row by row, then
/// blue, then red, at half the width and height, without what is between the rows.
pub proof fn law_a_packed_picture_is_in_place(p: PlanesView, timestamp_us: u64, r: int, c: int)
    requires
        p.complete(),
    ensures
        ({
            let out = p.picture(timestamp_us).data;
            let (w, h) = (p.width as int, p.height as int);
            let (w2, h2) = (w / 2, h / 2);
            &&& 0 <= r < h && 0 <= c < w ==> out[r * w + c] == p.y[r * p.y_stride + c]
            &&& 0 <= r < h2 && 0 <= c < w2 ==> out[h * w + r * w2 + c] == p.u[r * p.u_stride + c]
            &&& 0 <= r < h2 && 0 <= c < w2 ==> out[h * w + h2 * w2 + r * w2 + c] == p.v[r
                * p.v_stride + c]
        }),
{
    let (w, h) = (p.width as int, p.height as int);
    lemma_rows(p.y, 0, p.y_stride as int, w, h, r, c);
    lemma_rows(p.u, 0, p.u_stride as int, w / 2, h / 2, r, c);
    lemma_rows(p.v, 0, p.v_stride as int, w / 2, h / 2, r, c);
}

/// An answer of the encoder is a frame if it holds anything, at the picture's time;
/// it is a keyframe if it is an instantaneous refresh or an intra frame.
pub proof fn law_what_an_answer_is(bits: Seq<u8>, kind: FrameKind, timestamp_us: u64)
    ensures
        coded(bits, kind, timestamp_us) is None <==> bits.len() == 0,
        coded(bits, kind, timestamp_us) matches Some(f) ==> f.data == bits && f.timestamp_us
            == timestamp_us && (f.keyframe <==> kind == FrameKind::Idr || kind == FrameKind::I),
{
}

/// A picture is taken if it is I420 and of the agreed size.
pub proof fn law_which_pictures_are_taken(cfg: EncoderConfig, f: RawFrameView)
    ensures
        refused(cfg, f) is None <==> f.format == PixelFormat::I420 && f.width == cfg.width
            && f.height == cfg.height,
        f.format != PixelFormat::I420 ==> refused(cfg, f) == Some(SwError::Format),
        f.format == PixelFormat::I420 && (f.width != cfg.width || f.height != cfg.height)
            ==> refused(cfg, f) == Some(SwError::Size),
{
}

/// An encoder codes screen content to the agreed bit rate and frame rate, and leaves
/// no frame out.
pub proof fn law_what_an_encoder_is_set_to(cfg: EncoderConfig)
    ensures
        settings_of(cfg).content == Content::Screen,
        settings_of(cfg).steering == Steering::Bitrate,
        settings_of(cfg).bitrate_bps == cfg.bitrate_bps,
        settings_of(cfg).max_fps == cfg.fps,
        !settings_of(cfg).skip_frames,
{
}

} // verus!
