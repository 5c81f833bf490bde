//! Pairing: two peers that are given the same PIN prove to each other that they
//! know it, each bound to the certificate the other has seen.
//!
//! The PIN goes into a SPAKE2 exchange, so that nobody who listens can try PINs
//! at leisure. The key that comes out is not used for anything but two proofs.
use vstd::prelude::*;
use vstd::utf8::encode_utf8;
use hmac::{Hmac, Mac};
use rand::Rng;
use sha2::Sha256;
use spake2::{Ed25519Group, Identity as SpakeId, Password, Spake2};
use crate::number::{dec, dec_of, lemma_dec_len, zero_fill, zero_filled};
use crate::proto::{ControlMessage, MessageView};
use crate::text::{push_str, to_chars, to_string};

verus! {

pub const ID_SENDER: &'static str = "castr-sender";

pub const ID_RECEIVER: &'static str = "castr-receiver";

pub const ROLE_SENDER: &'static str = "sender";

pub const ROLE_RECEIVER: &'static str = "receiver";

/// The code that a refused pairing is answered with.
pub const PAIRING_FAILED: u16 = 3;

/// How many PINs there are.
pub const PINS: u32 = 1_000_000;

// ---- PINs ----

/// Calls `Rng::gen_range` on `rand::thread_rng`: some number below `n`.
#[verifier::external_body]
fn random_below(n: u32) -> (r: u32)
    requires
        n > 0,
    ensures
        r < n,
{
    rand::thread_rng().gen_range(0..n)
}

/// A PIN: six digits, zeros in front where need be.
pub open spec fn pin_text(n: nat) -> Seq<char> {
    zero_fill(dec(n), 6)
}

/// The PIN that a number gives.
pub fn pin_of(n: u32) -> (s: String)
    ensures
        s@ == pin_text(n as nat),
{
    let d = dec_of(n as u64);
    to_string(&zero_filled(&d, 6))
}

/// A fresh PIN.
pub fn generate_pin() -> (s: String)
    ensures
        exists|n: nat| n < PINS && s@ == #[trigger] pin_text(n),
{
    let n: u32 = random_below(PINS);
    let s = pin_of(n);
    assert(s@ == pin_text(n as nat));
    s
}

// ---- proofs ----

/// The HMAC-SHA-256 of a message under a key.
pub uninterp spec fn hmac_sha256(key: Seq<u8>, message: Seq<u8>) -> Seq<u8>;

/// Calls `Hmac::<Sha256>` on a message given in two parts. What it gives is
/// only named.
#[verifier::external_body]
fn mac(key: &[u8], role: &[u8], fp: &[u8]) -> (r: [u8; 32])
    ensures
        r@ == hmac_sha256(key@, role@ + fp@),
{
    let mut m = Hmac::<Sha256>::new_from_slice(key).expect("hmac accepts any key length");
    m.update(role);
    m.update(fp);
    m.finalize().into_bytes().into()
}

/// Calls `Mac::verify_slice` of `Hmac::<Sha256>` on a message given in two
/// parts: whether `got` is what the message gives.
#[verifier::external_body]
fn mac_matches(key: &[u8], role: &[u8], fp: &[u8], got: &[u8]) -> (r: bool)
    ensures
        r == (hmac_sha256(key@, role@ + fp@) == got@),
{
    let mut m = Hmac::<Sha256>::new_from_slice(key).expect("hmac accepts any key length");
    m.update(role);
    m.update(fp);
    m.verify_slice(got).is_ok()
}

/// What a side proves with: its role and its fingerprint under the key.
pub open spec fn proof_of(key: Seq<u8>, role: Seq<char>, fp: Seq<u8>) -> Seq<u8> {
    hmac_sha256(key, encode_utf8(role) + fp)
}

/// What a side proves with.
pub fn make_proof(key: &[u8], role: &str, fp: &[u8; 32]) -> (r: [u8; 32])
    ensures
        r@ == proof_of(key@, role@, fp@),
{
    mac(key, role.as_bytes(), fp)
}

/// Whether a proof is a side's.
pub fn check_proof(key: &[u8], role: &str, fp: &[u8; 32], got: &[u8; 32]) -> (r: bool)
    ensures
        r == (proof_of(key@, role@, fp@) == got@),
{
    mac_matches(key, role.as_bytes(), fp, got)
}

// ---- the exchange ----

/// Why an exchange failed.
#[derive(Debug, Clone, Copy, PartialEq, Eq, Structural)]
pub enum ExchangeError {
    BadSide,
    CorruptMessage,
    WrongLength,
}

impl ExchangeError {
    pub open spec fn text(self) -> Seq<char> {
        match self {
            ExchangeError::BadSide => "BadSide"@,
            ExchangeError::CorruptMessage => "CorruptMessage"@,
            ExchangeError::WrongLength => "WrongLength"@,
        }
    }

    pub fn name(self) -> (s: &'static str)
        ensures
            s@ == self.text(),
    {
        match self {
            ExchangeError::BadSide => "BadSide",
            ExchangeError::CorruptMessage => "CorruptMessage",
            ExchangeError::WrongLength => "WrongLength",
        }
    }
}

/// One side's part of a SPAKE2 exchange that is under way: a
/// `spake2::Spake2<Ed25519Group>`.
#[verifier::external_body]
pub struct Exchange {
    inner: Spake2<Ed25519Group>,
}

/// How a part was opened: its side, the PIN, the two names, and the message
/// that went out.
pub struct Opening {
    pub side: u8,
    pub pin: Seq<u8>,
    pub id_a: Seq<u8>,
    pub id_b: Seq<u8>,
    pub sent: Seq<u8>,
}

/// How a part of an exchange was opened.
pub uninterp spec fn opening(x: Exchange) -> Opening;

/// The key that a part comes to with the other side's message, or why it comes
/// to none.
pub uninterp spec fn agreed(x: Exchange, received: Seq<u8>) -> Result<Seq<u8>, ExchangeError>;

/// The side that opens first.
pub const SIDE_A: u8 = 0x41;

/// The side that answers.
pub const SIDE_B: u8 = 0x42;

/// The length of a message: a side and a point.
pub const EXCHANGE_LEN: usize = 33;

/// Whether a part was opened on a side with a PIN, under the two names.
pub open spec fn opened(o: Opening, side: u8, pin: Seq<char>) -> bool {
    &&& o.side == side
    &&& o.pin == encode_utf8(pin)
    &&& o.id_a == encode_utf8(ID_SENDER@)
    &&& o.id_b == encode_utf8(ID_RECEIVER@)
}

/// Calls `Spake2::start_a`. The message is drawn at random; it says which side
/// it comes from.
#[verifier::external_body]
fn open_a(pin: &[u8], id_a: &[u8], id_b: &[u8]) -> (r: (Exchange, Vec<u8>))
    ensures
        opening(r.0) == (Opening {
            side: SIDE_A,
            pin: pin@,
            id_a: id_a@,
            id_b: id_b@,
            sent: r.1@,
        }),
        r.1@.len() == EXCHANGE_LEN,
        r.1@[0] == SIDE_A,
{
    let (inner, message) = Spake2::<Ed25519Group>::start_a(
        &Password::new(pin),
        &SpakeId::new(id_a),
        &SpakeId::new(id_b),
    );
    (Exchange { inner }, message)
}

/// Calls `Spake2::start_b`. The message is drawn at random; it says which side
/// it comes from.
#[verifier::external_body]
fn open_b(pin: &[u8], id_a: &[u8], id_b: &[u8]) -> (r: (Exchange, Vec<u8>))
    ensures
        opening(r.0) == (Opening {
            side: SIDE_B,
            pin: pin@,
            id_a: id_a@,
            id_b: id_b@,
            sent: r.1@,
        }),
        r.1@.len() == EXCHANGE_LEN,
        r.1@[0] == SIDE_B,
{
    let (inner, message) = Spake2::<Ed25519Group>::start_b(
        &Password::new(pin),
        &SpakeId::new(id_a),
        &SpakeId::new(id_b),
    );
    (Exchange { inner }, message)
}

/// What a message is refused for before it is looked into: another length, or
/// not from the other side.
pub open spec fn misdirected(o: Opening, received: Seq<u8>) -> Option<ExchangeError> {
    if received.len() != EXCHANGE_LEN {
        Some(ExchangeError::WrongLength)
    } else if o.side == SIDE_A && received[0] != SIDE_B || o.side == SIDE_B && received[0]
        != SIDE_A {
        Some(ExchangeError::BadSide)
    } else {
        None
    }
}

/// Whether two parts are the two sides of one exchange, with the same PIN.
pub open spec fn partners(a: Opening, b: Opening) -> bool {
    &&& a.side == SIDE_A && b.side == SIDE_B || a.side == SIDE_B && b.side == SIDE_A
    &&& a.pin == b.pin
    &&& a.id_a == b.id_a
    &&& a.id_b == b.id_b
}

/// What is known of the key that a part comes to: it is refused for what is
/// wrong with the message, or because the message holds no point; and with the
/// message of a partner there is a key, the one that the partner comes to with
/// ours.
pub open spec fn closes(
    x: Exchange,
    received: Seq<u8>,
    key: Result<Seq<u8>, ExchangeError>,
) -> bool {
    &&& key == agreed(x, received)
    &&& match misdirected(opening(x), received) {
        Some(e) => key == Err::<Seq<u8>, ExchangeError>(e),
        None => key is Ok || key == Err::<Seq<u8>, ExchangeError>(ExchangeError::CorruptMessage),
    }
    &&& forall|y: Exchange|
        partners(opening(x), opening(y)) && opening(y).sent == received ==> key is Ok && key
            == #[trigger] agreed(y, opening(x).sent)
}

/// Calls `Spake2::finish`. A message of another length, or not from the other
/// side, is refused for that; one that holds no point is corrupt. The key
/// depends on the part, in which a random number is, and on the message, and is
/// named. Two parts with the same PIN and names, each given the other's message,
/// come to the same key: that is what the exchange is for.
#[verifier::external_body]
fn close(x: Exchange, received: &[u8]) -> (r: Result<Vec<u8>, ExchangeError>)
    ensures
        key_view(r) == agreed(x, received@),
        closes(x, received@, key_view(r)),
{
    x.inner.finish(received).map_err(|e| match e {
        spake2::Error::BadSide => ExchangeError::BadSide,
        spake2::Error::CorruptMessage => ExchangeError::CorruptMessage,
        spake2::Error::WrongLength => ExchangeError::WrongLength,
    })
}

// ---- what a step comes to ----

/// What is to be done next: a message to be sent, and how it ended if it did.
#[derive(Debug)]
pub struct PairStep {
    pub send: Option<ControlMessage>,
    pub end: Option<Result<(), String>>,
}

/// What a step is.
#[verifier::ext_equal]
pub struct StepView {
    pub send: Option<MessageView>,
    pub end: Option<Result<(), Seq<char>>>,
}

impl View for PairStep {
    type V = StepView;

    open spec fn view(&self) -> StepView {
        StepView {
            send: match self.send {
                Some(m) => Some(m@),
                None => None,
            },
            end: match self.end {
                Some(Ok(())) => Some(Ok(())),
                Some(Err(e)) => Some(Err(e@)),
                None => None,
            },
        }
    }
}

pub open spec fn sending(m: MessageView) -> StepView {
    StepView { send: Some(m), end: None }
}

/// The pairing ends without a word to the other side.
pub open spec fn ended(why: Seq<char>) -> StepView {
    StepView { send: None, end: Some(Err(why)) }
}

/// The pairing ends, and the other side is told why.
pub open spec fn refused(why: Seq<char>) -> StepView {
    StepView {
        send: Some(MessageView::Error { code: PAIRING_FAILED, message: why }),
        end: Some(Err("pairing failed: "@ + why)),
    }
}

fn joined(a: &str, b: &str) -> (s: String)
    ensures
        s@ == a@ + b@,
{
    let mut v = to_chars(a);
    push_str(&mut v, b);
    assert(v@ =~= a@ + b@);
    to_string(&v)
}

fn send(m: ControlMessage) -> (r: PairStep)
    ensures
        r@ == sending(m@),
{
    PairStep { send: Some(m), end: None }
}

fn end_with(a: &str, b: &str) -> (r: PairStep)
    ensures
        r@ == ended(a@ + b@),
{
    PairStep { send: None, end: Some(Err(joined(a, b))) }
}

fn refuse(why: String) -> (r: PairStep)
    ensures
        r@ == refused(why@),
{
    let told = joined("pairing failed: ", why.as_str());
    PairStep {
        send: Some(ControlMessage::Error { code: PAIRING_FAILED, message: why }),
        end: Some(Err(told)),
    }
}

// ---- the sender ----

/// Where a side stands.
#[verifier::ext_equal]
pub enum Stage {
    /// The sender waits for the receiver's part, or the receiver for the
    /// sender's.
    AwaitPart,
    /// A key is there, and the other side's proof is not.
    AwaitProof(Seq<u8>),
    /// Both proofs are there.
    AwaitOk,
    Over,
}

enum Progress {
    AwaitPart,
    AwaitProof(Vec<u8>),
    AwaitOk,
    Over,
}

impl Progress {
    spec fn stage(self) -> Stage {
        match self {
            Progress::AwaitPart => Stage::AwaitPart,
            Progress::AwaitProof(k) => Stage::AwaitProof(k@),
            Progress::AwaitOk => Stage::AwaitOk,
            Progress::Over => Stage::Over,
        }
    }
}

/// What a key is, or why there is none.
pub open spec fn key_view(r: Result<Vec<u8>, ExchangeError>) -> Result<Seq<u8>, ExchangeError> {
    match r {
        Ok(k) => Ok(k@),
        Err(e) => Err(e),
    }
}

/// What the sender does with a key: it proves that it has it.
pub open spec fn sender_keyed(own_fp: Seq<u8>, key: Result<Seq<u8>, ExchangeError>) -> (
    Stage,
    StepView,
) {
    match key {
        Ok(k) => (
            Stage::AwaitProof(k),
            sending(MessageView::PairProof(proof_of(k, ROLE_SENDER@, own_fp))),
        ),
        Err(e) => (Stage::Over, ended("spake2: "@ + e.text())),
    }
}

/// What the sender does with the receiver's proof: it checks it against the
/// certificate it has seen.
pub open spec fn sender_proved(key: Seq<u8>, peer_fp: Seq<u8>, m: MessageView) -> (
    Stage,
    StepView,
) {
    match m {
        MessageView::PairProof(p) if p == proof_of(key, ROLE_RECEIVER@, peer_fp) => (
            Stage::AwaitOk,
            sending(MessageView::PairOk),
        ),
        MessageView::Error { code, message } => (
            Stage::Over,
            ended("receiver rejected proof: "@ + message),
        ),
        _ => (Stage::Over, refused("receiver proof mismatch"@)),
    }
}

/// What the sender does with the last message.
pub open spec fn sender_ended(m: MessageView, shown: Seq<char>) -> (Stage, StepView) {
    (
        Stage::Over,
        if m == MessageView::PairOk {
            StepView { send: None, end: Some(Ok(())) }
        } else {
            ended("expected PairOk, got "@ + shown)
        },
    )
}

/// What the sender does with anything but the receiver's part.
pub open spec fn sender_refused(m: MessageView, shown: Seq<char>) -> (Stage, StepView) {
    (
        Stage::Over,
        match m {
            MessageView::Error { code, message } => ended(
                "receiver refused pairing: "@ + message,
            ),
            _ => refused("unexpected "@ + shown),
        },
    )
}

/// The sender's side of a pairing.
pub struct SenderPairing {
    own_fp: [u8; 32],
    peer_fp: [u8; 32],
    part: Option<Exchange>,
    progress: Progress,
}

impl SenderPairing {
    pub closed spec fn stage(&self) -> Stage {
        self.progress.stage()
    }

    /// The two fingerprints: its own, and the one it has seen.
    pub closed spec fn fingerprints(&self) -> (Seq<u8>, Seq<u8>) {
        (self.own_fp@, self.peer_fp@)
    }

    /// Its part of the exchange, while it is open.
    pub closed spec fn open_part(&self) -> Option<Exchange> {
        self.part
    }

    pub open spec fn valid(&self) -> bool {
        self.stage() == Stage::AwaitPart ==> self.open_part() is Some
    }

    /// Opens a pairing with a PIN: what to send first.
    pub fn start(own_fp: [u8; 32], peer_fp: [u8; 32], pin: &str) -> (r: (Self, ControlMessage))
        ensures
            r.0.valid(),
            r.0.stage() == Stage::AwaitPart,
            r.0.fingerprints() == (own_fp@, peer_fp@),
            r.0.open_part() matches Some(x) && opened(opening(x), SIDE_A, pin@) && r.1@
                == MessageView::PairInit(opening(x).sent),
    {
        let (x, message) = open_a(pin.as_bytes(), ID_SENDER.as_bytes(), ID_RECEIVER.as_bytes());
        (
            SenderPairing { own_fp, peer_fp, part: Some(x), progress: Progress::AwaitPart },
            ControlMessage::PairInit(message),
        )
    }

    /// Takes in what the receiver says. `shown` is how the message is written in
    /// a complaint about it.
    pub fn on_message(&mut self, m: ControlMessage, shown: &str) -> (r: PairStep)
        requires
            old(self).valid(),
            old(self).stage() != Stage::Over,
        ensures
            final(self).valid(),
            final(self).fingerprints() == old(self).fingerprints(),
            match (old(self).stage(), m@) {
                (Stage::AwaitPart, MessageView::PairResp(part)) => {
                    let x = old(self).open_part().unwrap();
                    &&& closes(x, part, agreed(x, part))
                    &&& (final(self).stage(), r@) == sender_keyed(
                        old(self).fingerprints().0,
                        agreed(x, part),
                    )
                },
                (Stage::AwaitPart, m) => (final(self).stage(), r@) == sender_refused(m, shown@),
                (Stage::AwaitProof(key), m) => (final(self).stage(), r@) == sender_proved(
                    key,
                    old(self).fingerprints().1,
                    m,
                ),
                (_, m) => (final(self).stage(), r@) == sender_ended(m, shown@),
            },
    {
        let mut now = Progress::Over;
        std::mem::swap(&mut now, &mut self.progress);
        match now {
            Progress::AwaitPart => match m {
                ControlMessage::PairResp(part) => {
                    let x = self.part.take().unwrap();
                    let key = close(x, part.as_slice());
                    let (progress, step) = keyed_sender(&self.own_fp, key);
                    self.progress = progress;
                    step
                },
                ControlMessage::Error { code: _, message } => end_with(
                    "receiver refused pairing: ",
                    message.as_str(),
                ),
                _ => refuse(joined("unexpected ", shown)),
            },
            Progress::AwaitProof(key) => match m {
                ControlMessage::PairProof(p) => {
                    if check_proof(key.as_slice(), ROLE_RECEIVER, &self.peer_fp, &p) {
                        self.progress = Progress::AwaitOk;
                        send(ControlMessage::PairOk)
                    } else {
                        refuse("receiver proof mismatch".to_owned())
                    }
                },
                ControlMessage::Error { code: _, message } => end_with(
                    "receiver rejected proof: ",
                    message.as_str(),
                ),
                _ => refuse("receiver proof mismatch".to_owned()),
            },
            _ => match m {
                ControlMessage::PairOk => PairStep { send: None, end: Some(Ok(())) },
                _ => end_with("expected PairOk, got ", shown),
            },
        }
    }
}

fn keyed_sender(own_fp: &[u8; 32], key: Result<Vec<u8>, ExchangeError>) -> (r: (Progress, PairStep))
    ensures
        (r.0.stage(), r.1@) == sender_keyed(own_fp@, key_view(key)),
{
    match key {
        Ok(k) => {
            let p = make_proof(k.as_slice(), ROLE_SENDER, own_fp);
            (Progress::AwaitProof(k), send(ControlMessage::PairProof(p)))
        },
        Err(e) => (Progress::Over, end_with("spake2: ", e.name())),
    }
}

// ---- the receiver ----

/// What the receiver does with a key: it answers with its own part.
pub open spec fn receiver_keyed(sent: Seq<u8>, key: Result<Seq<u8>, ExchangeError>) -> (
    Stage,
    StepView,
) {
    match key {
        Ok(k) => (Stage::AwaitProof(k), sending(MessageView::PairResp(sent))),
        Err(e) => (Stage::Over, ended("spake2: "@ + e.text())),
    }
}

/// What the receiver does with the sender's proof: it checks it against the
/// certificate it has seen, and proves itself only if it holds.
pub open spec fn receiver_proved(
    key: Seq<u8>,
    own_fp: Seq<u8>,
    peer_fp: Seq<u8>,
    m: MessageView,
) -> (Stage, StepView) {
    match m {
        MessageView::PairProof(p) if p == proof_of(key, ROLE_SENDER@, peer_fp) => (
            Stage::AwaitOk,
            sending(MessageView::PairProof(proof_of(key, ROLE_RECEIVER@, own_fp))),
        ),
        MessageView::Error { code, message } => (Stage::Over, ended("sender aborted: "@ + message)),
        _ => (Stage::Over, refused("wrong PIN"@)),
    }
}

/// What the receiver does with the last message.
pub open spec fn receiver_ended(m: MessageView, shown: Seq<char>) -> (Stage, StepView) {
    (
        Stage::Over,
        match m {
            MessageView::PairOk => StepView {
                send: Some(MessageView::PairOk),
                end: Some(Ok(())),
            },
            MessageView::Error { code, message } => ended("sender rejected proof: "@ + message),
            _ => ended("expected PairOk, got "@ + shown),
        },
    )
}

/// Whether this is what the receiver does with the sender's part, its own being
/// `x`: it opened that with the PIN that is shown, and goes by what it comes to.
pub open spec fn receiver_met(
    x: Exchange,
    pin: Seq<char>,
    received: Seq<u8>,
    stage: Stage,
    step: StepView,
) -> bool {
    &&& opened(opening(x), SIDE_B, pin)
    &&& closes(x, received, agreed(x, received))
    &&& receiver_keyed(opening(x).sent, agreed(x, received)) == (stage, step)
}

/// Whether this is what the receiver does with the sender's part.
pub open spec fn receiver_answered(
    pin: Seq<char>,
    received: Seq<u8>,
    stage: Stage,
    step: StepView,
) -> bool {
    exists|x: Exchange| #[trigger] receiver_met(x, pin, received, stage, step)
}

/// The receiver's side of a pairing.
pub struct ReceiverPairing {
    own_fp: [u8; 32],
    peer_fp: [u8; 32],
    pin: String,
    progress: Progress,
}

impl ReceiverPairing {
    pub closed spec fn stage(&self) -> Stage {
        self.progress.stage()
    }

    /// The two fingerprints: its own, and the one it has seen.
    pub closed spec fn fingerprints(&self) -> (Seq<u8>, Seq<u8>) {
        (self.own_fp@, self.peer_fp@)
    }

    /// The PIN that is shown.
    pub closed spec fn shown_pin(&self) -> Seq<char> {
        self.pin@
    }

    pub fn new(own_fp: [u8; 32], peer_fp: [u8; 32], pin: &str) -> (r: Self)
        ensures
            r.stage() == Stage::AwaitPart,
            r.fingerprints() == (own_fp@, peer_fp@),
            r.shown_pin() == pin@,
    {
        ReceiverPairing { own_fp, peer_fp, pin: pin.to_owned(), progress: Progress::AwaitPart }
    }

    /// Takes in what the sender says. `shown` is how the message is written in a
    /// complaint about it.
    pub fn on_message(&mut self, m: ControlMessage, shown: &str) -> (r: PairStep)
        requires
            old(self).stage() != Stage::Over,
        ensures
            final(self).fingerprints() == old(self).fingerprints(),
            final(self).shown_pin() == old(self).shown_pin(),
            match (old(self).stage(), m@) {
                (Stage::AwaitPart, MessageView::PairInit(part)) => receiver_answered(
                    old(self).shown_pin(),
                    part,
                    final(self).stage(),
                    r@,
                ),
                (Stage::AwaitPart, m) => (final(self).stage(), r@) == (
                    Stage::Over,
                    refused("unexpected "@ + shown@),
                ),
                (Stage::AwaitProof(key), m) => (final(self).stage(), r@) == receiver_proved(
                    key,
                    old(self).fingerprints().0,
                    old(self).fingerprints().1,
                    m,
                ),
                (_, m) => (final(self).stage(), r@) == receiver_ended(m, shown@),
            },
    {
        let mut now = Progress::Over;
        std::mem::swap(&mut now, &mut self.progress);
        match now {
            Progress::AwaitPart => match m {
                ControlMessage::PairInit(part) => {
                    let (x, message) = open_b(
                        self.pin.as_str().as_bytes(),
                        ID_SENDER.as_bytes(),
                        ID_RECEIVER.as_bytes(),
                    );
                    let ghost own = x;
                    let key = close(x, part.as_slice());
                    let (progress, step) = keyed_receiver(message, key);
                    self.progress = progress;
                    assert(receiver_met(own, self.pin@, part@, self.stage(), step@));
                    step
                },
                _ => refuse(joined("unexpected ", shown)),
            },
            Progress::AwaitProof(key) => match m {
                ControlMessage::PairProof(p) => {
                    if check_proof(key.as_slice(), ROLE_SENDER, &self.peer_fp, &p) {
                        self.progress = Progress::AwaitOk;
                        let own = make_proof(key.as_slice(), ROLE_RECEIVER, &self.own_fp);
                        send(ControlMessage::PairProof(own))
                    } else {
                        refuse("wrong PIN".to_owned())
                    }
                },
                ControlMessage::Error { code: _, message } => end_with(
                    "sender aborted: ",
                    message.as_str(),
                ),
                _ => refuse("wrong PIN".to_owned()),
            },
            _ => match m {
                ControlMessage::PairOk => PairStep {
                    send: Some(ControlMessage::PairOk),
                    end: Some(Ok(())),
                },
                ControlMessage::Error { code: _, message } => end_with(
                    "sender rejected proof: ",
                    message.as_str(),
                ),
                _ => end_with("expected PairOk, got ", shown),
            },
        }
    }
}

fn keyed_receiver(sent: Vec<u8>, key: Result<Vec<u8>, ExchangeError>) -> (r: (Progress, PairStep))
    ensures
        (r.0.stage(), r.1@) == receiver_keyed(sent@, key_view(key)),
{
    match key {
        Ok(k) => (Progress::AwaitProof(k), send(ControlMessage::PairResp(sent))),
        Err(e) => (Progress::Over, end_with("spake2: ", e.name())),
    }
}

// ---- laws ----

/// Two sides that come to the same key, each seeing the certificate the other
/// has, pair: every message is answered with the next, and both end well.
pub proof fn law_the_same_key_pairs(
    key: Seq<u8>,
    sender_fp: Seq<u8>,
    receiver_fp: Seq<u8>,
    shown: Seq<char>,
)
    ensures
        ({
            let (s1, m1) = sender_keyed(sender_fp, Ok(key));
            let (r1, m2) = receiver_proved(key, receiver_fp, sender_fp, m1.send.unwrap());
            let (s2, m3) = sender_proved(key, receiver_fp, m2.send.unwrap());
            let (r2, m4) = receiver_ended(m3.send.unwrap(), shown);
            let (s3, m5) = sender_ended(m4.send.unwrap(), shown);
            &&& s1 == Stage::AwaitProof(key)
            &&& r1 == Stage::AwaitOk
            &&& s2 == Stage::AwaitOk
            &&& m4.end == Some(Ok::<(), Seq<char>>(()))
            &&& m5.end == Some(Ok::<(), Seq<char>>(()))
        }),
{
}

/// Two sides with the same PIN come to the same key, and so they pair: each part
/// is closed with the other's message, every message after that is answered with
/// the next, and both end well.
pub proof fn law_matching_pins_pair(
    a: Exchange,
    b: Exchange,
    pin: Seq<char>,
    sender_fp: Seq<u8>,
    receiver_fp: Seq<u8>,
    shown: Seq<char>,
)
    requires
        opened(opening(a), SIDE_A, pin),
        opened(opening(b), SIDE_B, pin),
        closes(a, opening(b).sent, agreed(a, opening(b).sent)),
        closes(b, opening(a).sent, agreed(b, opening(a).sent)),
    ensures
        ({
            let (r0, m0) = receiver_keyed(opening(b).sent, agreed(b, opening(a).sent));
            let (s1, m1) = sender_keyed(sender_fp, agreed(a, opening(b).sent));
            let key = agreed(b, opening(a).sent).unwrap();
            let (r1, m2) = receiver_proved(key, receiver_fp, sender_fp, m1.send.unwrap());
            let (s2, m3) = sender_proved(key, receiver_fp, m2.send.unwrap());
            let (r2, m4) = receiver_ended(m3.send.unwrap(), shown);
            let (s3, m5) = sender_ended(m4.send.unwrap(), shown);
            &&& (r0, m0) == (
                Stage::AwaitProof(key),
                sending(MessageView::PairResp(opening(b).sent)),
            )
            &&& s1 == Stage::AwaitProof(key)
            &&& m4.end == Some(Ok::<(), Seq<char>>(()))
            &&& m5.end == Some(Ok::<(), Seq<char>>(()))
        }),
{
    assert(partners(opening(a), opening(b)));
    assert(partners(opening(b), opening(a)));
    law_the_same_key_pairs(agreed(b, opening(a).sent).unwrap(), sender_fp, receiver_fp, shown);
}

/// The receiver goes on only with a proof that was made with its own key for
/// the certificate it has seen: with any other, it answers that the PIN is
/// wrong, and gives no proof of its own away.
pub proof fn law_a_wrong_proof_is_refused(
    key: Seq<u8>,
    own_fp: Seq<u8>,
    peer_fp: Seq<u8>,
    p: Seq<u8>,
)
    requires
        p != proof_of(key, ROLE_SENDER@, peer_fp),
    ensures
        receiver_proved(key, own_fp, peer_fp, MessageView::PairProof(p)) == (
            Stage::Over,
            refused("wrong PIN"@),
        ),
{
}

/// The sender's side ends well only after the receiver proved itself: it says
/// that all is well only against a proof that was made with its own key for the
/// certificate it has seen.
pub proof fn law_the_sender_needs_a_proof(key: Seq<u8>, peer_fp: Seq<u8>, m: MessageView)
    requires
        sender_proved(key, peer_fp, m).0 == Stage::AwaitOk,
    ensures
        m == MessageView::PairProof(proof_of(key, ROLE_RECEIVER@, peer_fp)),
{
}

/// A PIN has six digits, whatever the number.
pub proof fn law_pins_have_six_digits(n: nat)
    requires
        n < PINS,
    ensures
        pin_text(n).len() == 6,
{
    assert(vstd::arithmetic::power::pow(10, 6) == PINS) by {
        reveal_with_fuel(vstd::arithmetic::power::pow, 7);
    }
    lemma_dec_len(n, 6);
}

/// A proof is made with the key, for the role and for the certificate: all three
/// go into it.
pub proof fn law_what_a_proof_covers(key: Seq<u8>, role: Seq<char>, fp: Seq<u8>)
    ensures
        proof_of(key, role, fp) == hmac_sha256(key, encode_utf8(role) + fp),
        ROLE_SENDER@ != ROLE_RECEIVER@,
{
    reveal_strlit("sender");
    reveal_strlit("receiver");
    assert(ROLE_SENDER@.len() == 6 && ROLE_RECEIVER@.len() == 8);
}

/// A message counts if it is as long as one and comes from the other side.
pub proof fn law_which_parts_are_looked_into(o: Opening, received: Seq<u8>)
    requires
        o.side == 0x41 || o.side == 0x42,
    ensures
        received.len() != 33 ==> misdirected(o, received) == Some(ExchangeError::WrongLength),
        received.len() == 33 && misdirected(o, received) is Some ==> misdirected(o, received)
            == Some(ExchangeError::BadSide),
        received.len() == 33 ==> (misdirected(o, received) is None <==> (o.side == 0x41
            && received[0] == 0x42) || (o.side == 0x42 && received[0] == 0x41)),
{
}

/// The sender tells the receiver that its proof did not match, unless the receiver
/// itself refused; then it says nothing more.
pub proof fn law_what_the_sender_does_with_a_proof(
    key: Seq<u8>,
    peer_fp: Seq<u8>,
    p: Seq<u8>,
    code: u16,
    message: Seq<char>,
)
    ensures
        p == hmac_sha256(key, encode_utf8(ROLE_RECEIVER@) + peer_fp) ==> sender_proved(
            key,
            peer_fp,
            MessageView::PairProof(p),
        ) == (Stage::AwaitOk, sending(MessageView::PairOk)),
        p != hmac_sha256(key, encode_utf8(ROLE_RECEIVER@) + peer_fp) ==> sender_proved(
            key,
            peer_fp,
            MessageView::PairProof(p),
        ).0 == Stage::Over && sender_proved(key, peer_fp, MessageView::PairProof(p)).1.end is Some,
        sender_proved(key, peer_fp, MessageView::Error { code, message }).0 == Stage::Over,
        sender_proved(key, peer_fp, MessageView::Error { code, message }).1.send is None,
{
}

/// A PIN reads back as the number it was made from.
pub proof fn law_pins_read_back(n: nat)
    requires
        n < 1_000_000,
    ensures
        crate::number::parse_dec(pin_text(n), 999_999) == Some(n),
{
    crate::number::law_parse_dec_of_filled(n, 6, 999_999);
}

/// How a pairing ends. The last message of the sender is answered in kind, that of
/// the receiver with nothing; either ends it well. A complaint of the other side is
/// never answered, and any other message at the end ends it without a word; one that
/// is out of place before that is answered with a complaint.
pub proof fn law_how_a_pairing_ends(m: MessageView, shown: Seq<char>)
    ensures
        ({
            let (s, r, e) = (
                sender_ended(m, shown).1,
                receiver_ended(m, shown).1,
                sender_refused(m, shown).1,
            );
            let fine: Option<Result<(), Seq<char>>> = Some(Ok(()));
            &&& sender_ended(m, shown).0 == Stage::Over
            &&& receiver_ended(m, shown).0 == Stage::Over
            &&& sender_refused(m, shown).0 == Stage::Over
            &&& s.end == fine <==> m == MessageView::PairOk
            &&& r.end == fine <==> m == MessageView::PairOk
            &&& s.send is None
            &&& m == MessageView::PairOk ==> r.send == Some(MessageView::PairOk)
            &&& m != MessageView::PairOk ==> r.send is None
            &&& s.end is Some && r.end is Some && (e.end is Some && e.end->0 is Err)
            &&& m is Error ==> e.send is None
            &&& !(m is Error) ==> (e.send is Some && e.send->0 is Error)
        }),
{
}

/// What the receiver does with a proof: one over the sender's certificate under the
/// common key is answered with its own, any other with a complaint; and a complaint is
/// not answered.
pub proof fn law_what_the_receiver_does_with_a_proof(
    key: Seq<u8>,
    own_fp: Seq<u8>,
    peer_fp: Seq<u8>,
    m: MessageView,
)
    ensures
        ({
            let (stage, step) = receiver_proved(key, own_fp, peer_fp, m);
            let good = m == MessageView::PairProof(
                hmac_sha256(key, encode_utf8(ROLE_SENDER@) + peer_fp),
            );
            &&& good ==> stage == Stage::AwaitOk && step.end is None && step.send == Some(
                MessageView::PairProof(hmac_sha256(key, encode_utf8(ROLE_RECEIVER@) + own_fp)),
            )
            &&& !good ==> stage == Stage::Over && (step.end is Some && step.end->0 is Err)
            &&& !good && m is Error ==> step.send is None
            &&& !good && !(m is Error) ==> (step.send is Some && step.send->0 is Error)
        }),
{
}

} // verus!
