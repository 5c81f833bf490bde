//! The WPS PIN a Miracast source has to be told before it will join.
//!
//! Windows collects the PIN from the viewer *before* it puts anything on the
//! air: the box appears the moment the sink is picked from the list, and no
//! provisioning frame reaches us until a PIN has been typed. A PIN minted when
//! provisioning starts therefore arrives too late to be read - there is
//! nothing on the television when the viewer is asked for it, and pairing
//! cannot complete. One is minted as soon as the group is up instead, and held
//! until it is used or fails.
use vstd::prelude::*;
use crate::number::{
    all_digits, dec, dec_val, digit, is_digit, is_digit_char, law_dec_reads_back,
    law_parse_dec_of_filled, lemma_dec_len, push_dec, push_dec_wide, read_dec, zero_fill,
};
use crate::text::{part, to_chars, to_string};

verus! {

/// Seven digits and the checksum digit, which is what `wpa_supplicant` and
/// Windows both expect.
pub const PIN_DIGITS: usize = 8;

/// The digits of a number, the last, the third from last and so on three
/// times, added up.
pub open spec fn weighted(pin: nat) -> nat
    decreases pin,
{
    if pin == 0 {
        0
    } else {
        3 * (pin % 10) + pin / 10 % 10 + weighted(pin / 100)
    }
}

/// The digit that makes the weighted sum a multiple of ten.
pub open spec fn check_digit(pin: nat) -> nat {
    ((10 - weighted(pin) % 10) % 10) as nat
}

proof fn lemma_weighted_bound(n: nat)
    requires
        n <= u32::MAX,
    ensures
        weighted(n) <= 180,
{
    let a = n / 100;
    let b = a / 100;
    let c = b / 100;
    let d = c / 100;
    let e = d / 100;
    assert(e == 0);
    assert(weighted(e) == 0);
    assert(weighted(d) <= 36);
    assert(weighted(c) <= 72);
    assert(weighted(b) <= 108);
    assert(weighted(a) <= 144);
}

/// The checksum digit the WPS specification defines, as `wpa_supplicant`
/// implements it: the argument is the seven-digit value, and the digit this
/// returns is appended to it. Windows rejects a PIN whose checksum does not
/// match, so this is not decoration.
pub fn checksum(pin: u32) -> (d: u32)
    ensures
        d == check_digit(pin as nat),
        d < 10,
{
    let mut rest: u32 = pin;
    let mut accum: u32 = 0;
    proof {
        lemma_weighted_bound(pin as nat);
    }
    while rest > 0
        invariant
            accum + weighted(rest as nat) == weighted(pin as nat),
            weighted(pin as nat) <= 180,
        decreases rest,
    {
        let before: u32 = rest;
        assert(weighted(before as nat) == 3 * (before % 10) + before / 10 % 10 + weighted(
            (before / 100) as nat,
        ));
        accum = accum + 3 * (rest % 10);
        rest = rest / 10;
        accum = accum + rest % 10;
        rest = rest / 10;
        assert(rest == before / 100);
    }
    (10 - accum % 10) % 10
}

/// The PIN for a seven-digit value.
pub open spec fn pin_text(entropy: u32) -> Seq<char> {
    let value = (entropy % 10_000_000) as nat;
    zero_fill(dec(value), 7) + dec(check_digit(value))
}

/// A PIN built from `entropy`, which need only be unpredictable enough that a
/// person in the room cannot guess the next one; the PIN is shown on a screen
/// in that room, not used as a secret at a distance.
pub fn pin_from(entropy: u32) -> (r: String)
    ensures
        r@ == pin_text(entropy),
{
    let value: u32 = entropy % 10_000_000;
    let mut s: Vec<char> = Vec::new();
    push_dec_wide(&mut s, value as u64, 7);
    push_dec(&mut s, checksum(value) as u64);
    assert(s@ =~= pin_text(entropy));
    to_string(&s)
}

/// Whether a text is a PIN: eight digits, the last one the checksum of the
/// first seven.
pub open spec fn valid_pin(s: Seq<char>) -> bool {
    &&& s.len() == PIN_DIGITS
    &&& all_digits(s)
    &&& check_digit(dec_val(s.take(7))) == digit(s[7])
}

/// Whether `pin` is a PIN a source will accept: eight digits, last one the
/// checksum of the first seven.
pub fn is_valid(pin: &str) -> (r: bool)
    ensures
        r == valid_pin(pin@),
{
    let a = to_chars(pin);
    if a.len() != PIN_DIGITS {
        return false;
    }
    let mut i: usize = 0;
    while i < a.len()
        invariant
            i <= a@.len(),
            a@ == pin@,
            forall|j: int| 0 <= j < i ==> is_digit(a@[j]),
        decreases a@.len() - i,
    {
        if !is_digit_char(a[i]) {
            assert(!is_digit(pin@[i as int]));
            return false;
        }
        i = i + 1;
    }
    let head = part(&a, 0, 7);
    assert(head@ =~= pin@.take(7));
    assert forall|j: int| 0 <= j < head@.len() implies is_digit(#[trigger] head@[j]) by {
        assert(is_digit(pin@[j]));
    }
    proof {
        lemma_seven_digits(head@);
        assert(is_digit(head@[0]));
        assert(crate::number::unsigned(head@) == head@);
    }
    let value: u32 = match read_dec(head, u32::MAX as u64) {
        Some(v) => v as u32,
        None => {
            return false;
        },
    };
    let check: u32 = a[7] as u32 - 48;
    checksum(value) == check
}

/// Seven digits are a number below ten million.
proof fn lemma_seven_digits(s: Seq<char>)
    requires
        s.len() == 7,
        all_digits(s),
    ensures
        dec_val(s) < 10_000_000,
{
    assert(vstd::arithmetic::power::pow(10, 7) == 10_000_000) by {
        reveal(vstd::arithmetic::power::pow);
        reveal_with_fuel(vstd::arithmetic::power::pow, 8);
    }
    lemma_digits_bound(s);
}

proof fn lemma_digits_bound(s: Seq<char>)
    requires
        all_digits(s),
    ensures
        dec_val(s) < vstd::arithmetic::power::pow(10, s.len()),
    decreases s.len(),
{
    reveal(vstd::arithmetic::power::pow);
    if s.len() > 0 {
        let t = s.drop_last();
        assert(all_digits(t)) by {
            assert forall|i: int| 0 <= i < t.len() implies is_digit(#[trigger] t[i]) by {
                assert(is_digit(s[i]));
            }
        }
        lemma_digits_bound(t);
        assert(is_digit(s.last()));
    }
}

/// What the sink should do about the PIN after something happened.
#[derive(Debug, Clone, PartialEq, Eq)]
pub enum Show {
    /// Put this PIN on the screen and arm the supplicant with it.
    Pin(String),
    /// Take the PIN off the screen: it is no longer wanted.
    Clear,
    /// Nothing to do; whatever is on the screen is still correct.
    Nothing,
}

#[verifier::ext_equal]
pub enum ShowView {
    Pin(Seq<char>),
    Clear,
    Nothing,
}

impl View for Show {
    type V = ShowView;

    open spec fn view(&self) -> ShowView {
        match self {
            Show::Pin(s) => ShowView::Pin(s@),
            Show::Clear => ShowView::Clear,
            Show::Nothing => ShowView::Nothing,
        }
    }
}

/// The PIN currently offered to sources, and when it changes.
#[derive(Debug)]
pub struct Pairing {
    pin: Option<String>,
}

impl View for Pairing {
    type V = Option<Seq<char>>;

    closed spec fn view(&self) -> Option<Seq<char>> {
        match self.pin {
            Some(s) => Some(s@),
            None => None,
        }
    }
}

/// What the group coming up comes to: a PIN, if there is none.
pub open spec fn offered(pin: Option<Seq<char>>, entropy: u32) -> (Option<Seq<char>>, ShowView) {
    match pin {
        Some(_) => (pin, ShowView::Nothing),
        None => (Some(pin_text(entropy)), ShowView::Pin(pin_text(entropy))),
    }
}

impl Default for Pairing {
    fn default() -> (p: Self)
        ensures
            p@ is None,
    {
        Pairing { pin: None }
    }
}

impl Pairing {
    pub fn new() -> (p: Self)
        ensures
            p@ is None,
    {
        Pairing { pin: None }
    }

    /// The PIN on offer, if any.
    pub fn current(&self) -> (r: Option<&str>)
        ensures
            r is Some <==> self@ is Some,
            r matches Some(s) ==> self@ == Some(s@),
    {
        match &self.pin {
            Some(s) => Some(s.as_str()),
            None => None,
        }
    }

    /// The group is up and a source could pick us at any moment. Mints a PIN
    /// if there is not one already; an existing one is kept, so a group that
    /// comes back up does not change the digits a viewer is part way through
    /// typing.
    pub fn group_up(&mut self, entropy: u32) -> (r: Show)
        ensures
            (final(self)@, r@) == offered(old(self)@, entropy),
    {
        match &self.pin {
            Some(_) => Show::Nothing,
            None => {
                let pin = pin_from(entropy);
                self.pin = Some(pin.clone());
                Show::Pin(pin)
            },
        }
    }

    /// A source is provisioning. The PIN it is about to send was read off the
    /// screen, so this must not change it - minting one here is what made
    /// pairing impossible.
    pub fn provisioning(&mut self, entropy: u32) -> (r: Show)
        ensures
            (final(self)@, r@) == offered(old(self)@, entropy),
    {
        // Only if we somehow have none: better a PIN that appears late than a
        // source that can never succeed.
        self.group_up(entropy)
    }

    /// Provisioning failed. A PIN that has been tried and rejected is worth
    /// nothing, and a viewer who mistyped needs to see that something changed,
    /// so the next attempt gets fresh digits.
    pub fn failed(&mut self, entropy: u32) -> (r: Show)
        ensures
            final(self)@ == Some(pin_text(entropy)),
            r@ == ShowView::Pin(pin_text(entropy)),
    {
        self.pin = None;
        self.group_up(entropy)
    }

    /// A source joined. Nobody needs to type anything now.
    pub fn joined(&mut self) -> (r: Show)
        ensures
            final(self)@ is None,
            r@ == if old(self)@ is Some {
                ShowView::Clear
            } else {
                ShowView::Nothing
            },
    {
        let had = self.pin.is_some();
        self.pin = None;
        if had {
            Show::Clear
        } else {
            Show::Nothing
        }
    }
}

// ---- laws ----

/// Every PIN that is minted is one that a source accepts.
pub proof fn law_a_minted_pin_is_valid(entropy: u32)
    ensures
        valid_pin(pin_text(entropy)),
{
    let value = (entropy % 10_000_000) as nat;
    let head = zero_fill(dec(value), 7);
    let c = check_digit(value);
    let pin = pin_text(entropy);
    reveal(vstd::arithmetic::power::pow);
    assert(vstd::arithmetic::power::pow(10, 7) == 10_000_000) by {
        reveal_with_fuel(vstd::arithmetic::power::pow, 8);
    }
    lemma_dec_len(value, 7);
    assert(head.len() == 7);
    law_parse_dec_of_filled(value, 7, u32::MAX as nat);
    law_dec_reads_back(c);
    assert(dec(c).len() == 1);
    assert(pin.take(7) =~= head);
    assert(crate::number::unsigned(head) == head) by {
        assert(is_digit(head[0]));
    }
    assert forall|i: int| 0 <= i < pin.len() implies is_digit(#[trigger] pin[i]) by {
        if i < 7 {
            assert(pin[i] == head[i]);
        } else {
            assert(pin[i] == dec(c)[0]);
        }
    }
    assert(pin[7] == dec(c)[0]);
}

/// A minted PIN is its seven digits, filled with zeros, and the one digit that
/// belongs to them: with any other in its place it is refused.
pub proof fn law_the_last_digit_is_the_check(entropy: u32, c: char)
    ensures
        pin_text(entropy).len() == PIN_DIGITS,
        all_digits(pin_text(entropy)),
        pin_text(entropy).take(7) == zero_fill(dec((entropy % 10_000_000) as nat), 7),
        valid_pin(pin_text(entropy).update(7, c)) <==> c == pin_text(entropy)[7],
{
    law_a_minted_pin_is_valid(entropy);
    let pin = pin_text(entropy);
    let value = (entropy % 10_000_000) as nat;
    assert(vstd::arithmetic::power::pow(10, 7) == 10_000_000) by {
        reveal(vstd::arithmetic::power::pow);
        reveal_with_fuel(vstd::arithmetic::power::pow, 8);
    }
    lemma_dec_len(value, 7);
    assert(pin.take(7) =~= zero_fill(dec(value), 7));
    let other = pin.update(7, c);
    assert(other.take(7) =~= pin.take(7));
    assert(is_digit(pin[7]));
    if valid_pin(other) {
        assert(is_digit(other[7]));
    } else if c == pin[7] {
        assert(other =~= pin);
    }
}

/// What is not exactly eight digits is no PIN.
pub proof fn law_a_pin_is_eight_digits(s: Seq<char>)
    requires
        s.len() != 8 || exists|i: int| 0 <= i < s.len() && !is_digit(#[trigger] s[i]),
    ensures
        !valid_pin(s),
{
}

/// The digits on the screen stay until they are used or refused: neither the
/// group coming up again nor a source that provisions changes them.
pub proof fn law_shown_digits_stay(pin: Seq<char>, entropy: u32)
    ensures
        offered(Some(pin), entropy) == (Some(pin), ShowView::Nothing),
{
}

/// The value of a digit.
pub open spec fn worth(c: char) -> int {
    c as u32 - 48
}

/// Eight digits are a PIN exactly if, with every other one from the first on
/// counted three times, they add up to a multiple of ten.
pub proof fn law_the_digits_of_a_pin_add_up(s: Seq<char>)
    requires
        s.len() == 8,
        forall|i: int| 0 <= i < 8 ==> '0' <= #[trigger] s[i] <= '9',
    ensures
        valid_pin(s) <==> (3 * worth(s[0]) + worth(s[1]) + 3 * worth(s[2]) + worth(s[3]) + 3
            * worth(s[4]) + worth(s[5]) + 3 * worth(s[6]) + worth(s[7])) % 10 == 0,
{
    assert forall|i: int| 0 <= i < s.len() implies is_digit(#[trigger] s[i]) by {}
    let v7 = dec_val(s.take(7));
    lemma_seven(s);
    let sum = 3 * digit(s[0]) + digit(s[1]) + 3 * digit(s[2]) + digit(s[3]) + 3 * digit(s[4])
        + digit(s[5]) + 3 * digit(s[6]);
    lemma_check(v7, sum, digit(s[7]));
}

proof fn lemma_check(v: nat, sum: nat, last: nat)
    requires
        weighted(v) == sum,
        last < 10,
    ensures
        check_digit(v) == last <==> (sum + last) % 10 == 0,
{
}

/// Seven digits, weighed.
proof fn lemma_seven(s: Seq<char>)
    requires
        s.len() == 8,
        all_digits(s),
    ensures
        weighted(dec_val(s.take(7))) == 3 * digit(s[0]) + digit(s[1]) + 3 * digit(s[2]) + digit(
            s[3],
        ) + 3 * digit(s[4]) + digit(s[5]) + 3 * digit(s[6]),
{
    assert(s.take(0) =~= Seq::empty());
    let v0 = dec_val(s.take(0));
    assert(v0 == 0 && weighted(v0) == 0);
    lemma_dec_val_step(s, 1);
    let v1 = dec_val(s.take(1));
    assert(is_digit(s[0]) && is_digit(s[1]) && is_digit(s[2]) && is_digit(s[3]));
    assert(is_digit(s[4]) && is_digit(s[5]) && is_digit(s[6]));
    lemma_weighted_step(0, 0, digit(s[0]));
    assert(weighted(v1) == 3 * digit(s[0]));
    lemma_two_more(s, 1);
    lemma_two_more(s, 3);
    lemma_two_more(s, 5);
}

proof fn lemma_two_more(s: Seq<char>, n: int)
    requires
        0 <= n,
        n + 2 <= s.len(),
        is_digit(s[n]),
        is_digit(s[n + 1]),
    ensures
        weighted(dec_val(s.take(n + 2))) == weighted(dec_val(s.take(n))) + digit(s[n]) + 3 * digit(
            s[n + 1],
        ),
{
    lemma_dec_val_step(s, n + 1);
    lemma_dec_val_step(s, n + 2);
    lemma_weighted_step(dec_val(s.take(n)), digit(s[n]), digit(s[n + 1]));
}

proof fn lemma_dec_val_step(s: Seq<char>, n: int)
    requires
        0 < n <= s.len(),
    ensures
        dec_val(s.take(n)) == 10 * dec_val(s.take(n - 1)) + digit(s[n - 1]),
{
    assert(s.take(n).drop_last() =~= s.take(n - 1));
    assert(s.take(n).last() == s[n - 1]);
}

proof fn lemma_weighted_step(v: nat, tens: nat, ones: nat)
    requires
        tens < 10,
        ones < 10,
    ensures
        weighted(100 * v + 10 * tens + ones) == weighted(v) + tens + 3 * ones,
{
    let n = 100 * v + 10 * tens + ones;
    assert(n % 10 == ones);
    assert(n / 10 == 10 * v + tens);
    assert(n / 10 % 10 == tens);
    assert(n / 100 == v);
}

/// A PIN is minted where there is none, and shown; it is that of the last seven
/// digits of what it is made from.
pub proof fn law_a_pin_is_minted_once(pin: Option<Seq<char>>, entropy: u32, other: u32)
    ensures
        pin is None ==> offered(pin, entropy).0 is Some && offered(pin, entropy).1 == ShowView::Pin(
            offered(pin, entropy).0->0,
        ),
        pin is Some ==> offered(pin, entropy) == (pin, ShowView::Nothing),
        entropy % 10_000_000 == other % 10_000_000 <==> pin_text(entropy).take(7) == pin_text(
            other,
        ).take(7),
{
    law_the_last_digit_is_the_check(entropy, '0');
    law_the_last_digit_is_the_check(other, '0');
    let (a, b) = ((entropy % 10_000_000) as nat, (other % 10_000_000) as nat);
    law_parse_dec_of_filled(a, 7, u32::MAX as nat);
    law_parse_dec_of_filled(b, 7, u32::MAX as nat);
}

} // verus!
