//! The wpa_supplicant control channel.
//!
//! `wpa_supplicant` speaks a line protocol over a Unix datagram socket: send a
//! command, read one reply; after `ATTACH`, unsolicited events arrive on the
//! same socket. Here are the command builders, the event parser and the queue
//! that keeps events apart from replies; the socket is the caller's.
use vstd::prelude::*;
use vstd::utf8::*;
use crate::number::{dec, parse_dec, push_dec, read_dec};
use crate::text::{
    has_prefix, is_str, lemma_find_from_is, push_str, rest, split_once, split_once_of, starts_with, strip_prefix,
    texts, to_chars, to_string, trim, trim_end, trim_end_of, trim_of, words, words_of,
};

verus! {

/// Commands we send. Built as strings so they can be logged verbatim when
/// something goes wrong on the hardware.
pub struct Command;

fn two_words(a: &str, b: &str) -> (r: String)
    ensures
        r@ == a@ + b@,
{
    let mut s: Vec<char> = Vec::new();
    push_str(&mut s, a);
    push_str(&mut s, b);
    assert(s@ =~= a@ + b@);
    to_string(&s)
}

impl Command {
    pub fn wifi_display_enable() -> (r: String)
        ensures
            r@ == "SET wifi_display 1"@,
    {
        "SET wifi_display 1".to_owned()
    }

    /// Sets one WFD information-element subelement; index 0 is device info.
    pub fn subelement(index: u8, hex: &str) -> (r: String)
        ensures
            r@ == "WFD_SUBELEM_SET "@ + dec(index as nat) + " "@ + hex@,
    {
        let mut s: Vec<char> = Vec::new();
        push_str(&mut s, "WFD_SUBELEM_SET ");
        push_dec(&mut s, index as u64);
        push_str(&mut s, " ");
        push_str(&mut s, hex);
        assert(s@ =~= "WFD_SUBELEM_SET "@ + dec(index as nat) + " "@ + hex@);
        to_string(&s)
    }

    /// Creates a persistent group with us as group owner on a fixed channel.
    pub fn group_add_persistent(freq_mhz: u32) -> (r: String)
        ensures
            r@ == "P2P_GROUP_ADD persistent freq="@ + dec(freq_mhz as nat),
    {
        let mut s: Vec<char> = Vec::new();
        push_str(&mut s, "P2P_GROUP_ADD persistent freq=");
        push_dec(&mut s, freq_mhz as u64);
        assert(s@ =~= "P2P_GROUP_ADD persistent freq="@ + dec(freq_mhz as nat));
        to_string(&s)
    }

    /// Authorises an enrolment with the PIN we display.
    pub fn wps_pin(pin: &str) -> (r: String)
        ensures
            r@ == "WPS_PIN any "@ + pin@,
    {
        two_words("WPS_PIN any ", pin)
    }

    pub fn group_remove(iface: &str) -> (r: String)
        ensures
            r@ == "P2P_GROUP_REMOVE "@ + iface@,
    {
        two_words("P2P_GROUP_REMOVE ", iface)
    }

    /// Names the device as sources see it.
    pub fn device_name(name: &str) -> (r: String)
        ensures
            r@ == "SET device_name "@ + name@,
    {
        two_words("SET device_name ", name)
    }
}

#[derive(Debug, Clone, PartialEq, Eq)]
pub enum Event {
    GroupStarted { interface: String, go: bool, freq_mhz: u32 },
    GroupRemoved { interface: String },
    ClientConnected { mac: String },
    ClientDisconnected { mac: String },
    ProvisionRequest { peer: String },
    WpsSuccess,
    WpsFail,
}

#[verifier::ext_equal]
pub enum EventView {
    GroupStarted { interface: Seq<char>, go: bool, freq_mhz: u32 },
    GroupRemoved { interface: Seq<char> },
    ClientConnected { mac: Seq<char> },
    ClientDisconnected { mac: Seq<char> },
    ProvisionRequest { peer: Seq<char> },
    WpsSuccess,
    WpsFail,
}

impl View for Event {
    type V = EventView;

    open spec fn view(&self) -> EventView {
        match self {
            Event::GroupStarted { interface, go, freq_mhz } => EventView::GroupStarted {
                interface: interface@,
                go: *go,
                freq_mhz: *freq_mhz,
            },
            Event::GroupRemoved { interface } => EventView::GroupRemoved { interface: interface@ },
            Event::ClientConnected { mac } => EventView::ClientConnected { mac: mac@ },
            Event::ClientDisconnected { mac } => EventView::ClientDisconnected { mac: mac@ },
            Event::ProvisionRequest { peer } => EventView::ProvisionRequest { peer: peer@ },
            Event::WpsSuccess => EventView::WpsSuccess,
            Event::WpsFail => EventView::WpsFail,
        }
    }
}

/// The line without the `<3>` priority before it, if it has one.
pub open spec fn event_body(line: Seq<char>) -> Seq<char> {
    match split_once(line, '>') {
        Some(pr) if pr.0.len() > 0 && pr.0[0] == '<' => pr.1,
        _ => line,
    }
}

/// The frequency that the first word with `freq=` from `i` on names; zero when
/// there is none or it cannot be read.
pub open spec fn freq_from(ws: Seq<Seq<char>>, i: int) -> u32
    decreases ws.len() - i,
{
    if i >= ws.len() {
        0
    } else if has_prefix(ws[i], "freq="@) {
        match parse_dec(rest(ws[i], "freq="@.len() as int), u32::MAX as nat) {
            Some(n) => n as u32,
            None => 0,
        }
    } else {
        freq_from(ws, i + 1)
    }
}

/// What an event line says.
pub open spec fn event_of(line: Seq<char>) -> Option<EventView> {
    let ws = words(event_body(line));
    if ws.len() == 0 {
        None
    } else if ws[0] == "WPS-SUCCESS"@ {
        Some(EventView::WpsSuccess)
    } else if ws[0] == "WPS-FAIL"@ || ws[0] == "WPS-TIMEOUT"@ {
        Some(EventView::WpsFail)
    } else if ws.len() == 1 {
        None
    } else if ws[0] == "P2P-GROUP-STARTED"@ {
        Some(
            EventView::GroupStarted {
                interface: ws[1],
                go: ws.len() > 2 && ws[2] == "GO"@,
                freq_mhz: freq_from(ws, 0),
            },
        )
    } else if ws[0] == "P2P-GROUP-REMOVED"@ {
        Some(EventView::GroupRemoved { interface: ws[1] })
    } else if ws[0] == "AP-STA-CONNECTED"@ {
        Some(EventView::ClientConnected { mac: ws[1] })
    } else if ws[0] == "AP-STA-DISCONNECTED"@ {
        Some(EventView::ClientDisconnected { mac: ws[1] })
    } else if ws[0] == "P2P-PROV-DISC-PBC-REQ"@ || ws[0] == "P2P-PROV-DISC-SHOW-PIN"@ || ws[0]
        == "P2P-PROV-DISC-ENTER-PIN"@ {
        Some(EventView::ProvisionRequest { peer: ws[1] })
    } else {
        None
    }
}

fn read_freq(ws: &Vec<Vec<char>>) -> (f: u32)
    ensures
        f == freq_from(texts(ws@), 0),
{
    let ghost all = texts(ws@);
    let mut i: usize = 0;
    while i < ws.len()
        invariant
            i <= ws@.len(),
            all == texts(ws@),
            freq_from(all, 0) == freq_from(all, i as int),
        decreases ws@.len() - i,
    {
        assert(all[i as int] == ws@[i as int]@);
        if let Some(v) = strip_prefix(&ws[i], "freq=") {
            return match read_dec(v, u32::MAX as u64) {
                Some(n) => n as u32,
                None => 0,
            };
        }
        i = i + 1;
    }
    0
}

/// Parses one unsolicited event line. Unknown events yield `None` rather than
/// an error: the supplicant emits many we do not care about.
pub fn parse_event(line: &str) -> (r: Option<Event>)
    ensures
        r is Some <==> event_of(line@) is Some,
        r matches Some(e) ==> event_of(line@) == Some(e@),
{
    let a = to_chars(line);
    // Strip the "<3>" priority prefix if present.
    let ws = match split_once_of(&a, '>') {
        Some((p, tail)) => if p.len() > 0 && p[0] == '<' {
            words_of(tail)
        } else {
            words_of(&a)
        },
        None => words_of(&a),
    };
    let ghost all = words(event_body(line@));
    assert(texts(ws@) == all);
    if ws.len() == 0 {
        return None;
    }
    assert(all[0] == ws@[0]@);
    let name = &ws[0];
    if is_str(name, "WPS-SUCCESS") {
        return Some(Event::WpsSuccess);
    }
    if is_str(name, "WPS-FAIL") || is_str(name, "WPS-TIMEOUT") {
        return Some(Event::WpsFail);
    }
    if ws.len() == 1 {
        return None;
    }
    assert(all[1] == ws@[1]@);
    if is_str(name, "P2P-GROUP-STARTED") {
        assert(all.len() > 2 ==> all[2] == ws@[2]@);
        let go = ws.len() > 2 && is_str(&ws[2], "GO");
        let freq_mhz: u32 = read_freq(&ws);
        return Some(Event::GroupStarted { interface: to_string(&ws[1]), go, freq_mhz });
    }
    if is_str(name, "P2P-GROUP-REMOVED") {
        return Some(Event::GroupRemoved { interface: to_string(&ws[1]) });
    }
    if is_str(name, "AP-STA-CONNECTED") {
        return Some(Event::ClientConnected { mac: to_string(&ws[1]) });
    }
    if is_str(name, "AP-STA-DISCONNECTED") {
        return Some(Event::ClientDisconnected { mac: to_string(&ws[1]) });
    }
    if is_str(name, "P2P-PROV-DISC-PBC-REQ") || is_str(name, "P2P-PROV-DISC-SHOW-PIN") || is_str(
        name,
        "P2P-PROV-DISC-ENTER-PIN",
    ) {
        return Some(Event::ProvisionRequest { peer: to_string(&ws[1]) });
    }
    None
}

// ---- the channel ----

/// What `String::from_utf8_lossy` makes of bytes.
pub uninterp spec fn lossy(bytes: Seq<u8>) -> Seq<char>;

/// `String::from_utf8_lossy`: valid UTF-8 is the text it encodes; anything else
/// has its invalid parts replaced, of which only that it depends on the bytes
/// alone is claimed.
#[verifier::external_body]
fn lossy_text(bytes: &[u8]) -> (r: String)
    ensures
        r@ == lossy(bytes@),
        valid_utf8(bytes@) ==> r@ == decode_utf8(bytes@),
{
    String::from_utf8_lossy(bytes).into_owned()
}

/// The line that a datagram from the supplicant holds.
pub fn line_of(datagram: &[u8]) -> (r: String)
    ensures
        r@ == trim_end(lossy(datagram@)),
        valid_utf8(datagram@) ==> r@ == trim_end(decode_utf8(datagram@)),
{
    let s = lossy_text(datagram);
    let a = to_chars(&s);
    to_string(trim_end_of(&a))
}

/// Events that arrived while a reply was waited for, oldest first. Commands and
/// events share the socket, so a reply read may turn up an event first.
pub struct Pending {
    events: Vec<Event>,
}

/// What a list of events says.
pub open spec fn events(v: Seq<Event>) -> Seq<EventView> {
    Seq::new(v.len(), |i: int| v[i]@)
}

impl View for Pending {
    type V = Seq<EventView>;

    closed spec fn view(&self) -> Seq<EventView> {
        events(self.events@)
    }
}

/// Whether a line is an event rather than a reply.
pub open spec fn is_event_line(line: Seq<char>) -> bool {
    line.len() > 0 && line[0] == '<'
}

impl Pending {
    pub fn new() -> (p: Self)
        ensures
            p@ == Seq::<EventView>::empty(),
    {
        let p = Pending { events: Vec::new() };
        assert(p@ =~= Seq::empty());
        p
    }

    /// Takes one line that arrived while a reply was waited for. Whether it is
    /// the reply; if not, the event it holds, if we care about it, is kept.
    pub fn on_line(&mut self, line: &str) -> (is_reply: bool)
        ensures
            is_reply == !is_event_line(line@),
            final(self)@ == if is_reply {
                old(self)@
            } else {
                match event_of(line@) {
                    Some(e) => old(self)@.push(e),
                    None => old(self)@,
                }
            },
    {
        let a = to_chars(line);
        if !(a.len() > 0 && a[0] == '<') {
            return true;
        }
        if let Some(e) = parse_event(line) {
            self.events.push(e);
            assert(self@ =~= old(self)@.push(event_of(line@).unwrap()));
        }
        false
    }

    /// The oldest event that is kept, if there is one.
    pub fn next(&mut self) -> (r: Option<Event>)
        ensures
            r is Some <==> old(self)@.len() > 0,
            r matches Some(e) ==> e@ == old(self)@[0] && final(self)@ == old(self)@.drop_first(),
            r is None ==> final(self)@ == old(self)@,
    {
        if self.events.len() == 0 {
            return None;
        }
        let ghost before = self@;
        let e = self.events.remove(0);
        assert(self@ =~= before.drop_first());
        Some(e)
    }
}

/// Whether a reply says that a command was done.
pub fn is_ok(reply: &str) -> (r: bool)
    ensures
        r == (trim(reply@) == "OK"@),
{
    let a = to_chars(reply);
    is_str(trim_of(&a), "OK")
}

/// The milliseconds to wait for a datagram: what is left until the deadline,
/// as far as the system call can express it. `None` when the time is up.
pub fn poll_millis(remaining_nanos: u64) -> (r: Option<i32>)
    ensures
        r == if remaining_nanos == 0 {
            None::<i32>
        } else {
            Some(
                if remaining_nanos / 1_000_000 > i32::MAX {
                    i32::MAX
                } else {
                    (remaining_nanos / 1_000_000) as i32
                },
            )
        },
{
    if remaining_nanos == 0 {
        return None;
    }
    let ms: u64 = remaining_nanos / 1_000_000;
    if ms > i32::MAX as u64 {
        Some(i32::MAX)
    } else {
        Some(ms as i32)
    }
}

// ---- laws ----

/// A priority in angle brackets ahead of an event is no part of it.
pub proof fn law_a_priority_is_stripped(priority: Seq<char>, body: Seq<char>)
    requires
        forall|i: int| 0 <= i < priority.len() ==> #[trigger] priority[i] != '>',
    ensures
        event_body(seq!['<'] + priority + seq!['>'] + body) == body,
        event_of(seq!['<'] + priority + seq!['>'] + body) == event_of_words(words(body)),
        is_event_line(seq!['<'] + priority + seq!['>'] + body),
{
    let head = seq!['<'] + priority;
    let line = head + seq!['>'] + body;
    assert(line =~= seq!['<'] + priority + seq!['>'] + body);
    assert forall|j: int| 0 <= j < head.len() implies line[j] != '>' by {
        if j > 0 {
            assert(line[j] == priority[j - 1]);
        }
    }
    assert(line[head.len() as int] == '>');
    lemma_find_from_is(line, '>', 0, head.len() as int);
    assert(rest(line, head.len() as int + 1) =~= body);
    assert(line.subrange(0, head.len() as int)[0] == '<');
    law_what_events_say(line);
}

/// What the words of an event say: the end of pairing by its first word alone, and
/// everything else by its first word and the one that it is about.
pub open spec fn event_of_words(ws: Seq<Seq<char>>) -> Option<EventView> {
    let name = ws[0];
    let about = ws[1];
    if ws.len() > 0 && name == "WPS-SUCCESS"@ {
        Some(EventView::WpsSuccess)
    } else if ws.len() > 0 && (name == "WPS-FAIL"@ || name == "WPS-TIMEOUT"@) {
        Some(EventView::WpsFail)
    } else if ws.len() < 2 {
        None
    } else if name == "AP-STA-CONNECTED"@ {
        Some(EventView::ClientConnected { mac: about })
    } else if name == "AP-STA-DISCONNECTED"@ {
        Some(EventView::ClientDisconnected { mac: about })
    } else if name == "P2P-GROUP-STARTED"@ {
        Some(
            EventView::GroupStarted {
                interface: about,
                go: ws.len() >= 3 && ws[2] == "GO"@,
                freq_mhz: freq_from(ws, 0),
            },
        )
    } else if name == "P2P-GROUP-REMOVED"@ {
        Some(EventView::GroupRemoved { interface: about })
    } else if name == "P2P-PROV-DISC-PBC-REQ"@ || name == "P2P-PROV-DISC-SHOW-PIN"@ || name
        == "P2P-PROV-DISC-ENTER-PIN"@ {
        Some(EventView::ProvisionRequest { peer: about })
    } else {
        None
    }
}

/// A line is the event that its words say, behind its priority.
pub proof fn law_what_events_say(line: Seq<char>)
    ensures
        event_of(line) == event_of_words(words(event_body(line))),
{
    reveal_strlit("AP-STA-CONNECTED");
    reveal_strlit("AP-STA-DISCONNECTED");
    reveal_strlit("P2P-GROUP-STARTED");
    reveal_strlit("P2P-GROUP-REMOVED");
    reveal_strlit("P2P-PROV-DISC-PBC-REQ");
    reveal_strlit("P2P-PROV-DISC-SHOW-PIN");
    reveal_strlit("P2P-PROV-DISC-ENTER-PIN");
    let name = words(event_body(line))[0];
    assert("AP-STA-CONNECTED"@.len() == 16);
    assert("AP-STA-DISCONNECTED"@.len() == 19);
    assert("P2P-GROUP-STARTED"@.len() == 17);
    assert("P2P-GROUP-REMOVED"@.len() == 17);
    assert("P2P-GROUP-STARTED"@[10] == 'S' && "P2P-GROUP-REMOVED"@[10] == 'R');
    assert("P2P-PROV-DISC-PBC-REQ"@.len() == 21);
    assert("P2P-PROV-DISC-SHOW-PIN"@.len() == 22);
    assert("P2P-PROV-DISC-ENTER-PIN"@.len() == 23);
}

/// The frequency of a group is that of the first word that names one.
pub proof fn law_the_frequency_of_a_group(ws: Seq<Seq<char>>, k: int)
    ensures
        0 <= k < ws.len() && has_prefix(ws[k], "freq="@) && (forall|i: int|
            0 <= i < k ==> !has_prefix(#[trigger] ws[i], "freq="@)) ==> freq_from(ws, 0) == (
        match parse_dec(rest(ws[k], 5), 0xffff_ffff) {
            Some(n) => n as u32,
            None => 0,
        }),
        (forall|i: int| 0 <= i < ws.len() ==> !has_prefix(#[trigger] ws[i], "freq="@))
            ==> freq_from(ws, 0) == 0,
{
    reveal_strlit("freq=");
    lemma_freq(ws, k, 0);
}

proof fn lemma_freq(ws: Seq<Seq<char>>, k: int, j: int)
    requires
        0 <= j <= ws.len(),
    ensures
        j <= k < ws.len() && has_prefix(ws[k], "freq="@) && (forall|i: int|
            0 <= i < k ==> !has_prefix(#[trigger] ws[i], "freq="@)) ==> freq_from(ws, j)
            == freq_from(ws, k),
        (forall|i: int| 0 <= i < ws.len() ==> !has_prefix(#[trigger] ws[i], "freq="@))
            ==> freq_from(ws, j) == 0,
    decreases ws.len() - j,
{
    if j < ws.len() {
        lemma_freq(ws, k, j + 1);
    }
}

} // verus!
