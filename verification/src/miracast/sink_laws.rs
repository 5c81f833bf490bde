//! Which channel the sink takes, and what it does with each thing that happens.
use vstd::prelude::*;
use crate::miracast::p2p::EventView;
use crate::miracast::pairing::pin_text;
use crate::miracast::rtsp::NegState;
use crate::miracast::session::{SessionState, SinkEventView};
use crate::miracast::sink::{
    busy, capabilities_of, dhcp_met, dispatched, ends_from, finishing, lease_of, least_busy,
    pass_over, peers_from, peers_text, radio_met, refuses, scan_freq, session_id_text,
    session_ticked, write_failed, ServeActionView, ServiceState, SinkOutView,
};
use crate::number::{hex, parse_dec, zero_fill};
use crate::text::{has_prefix, lines, lowered, pieces, trim};
use crate::time::Instant;

verus! {

// ---- the channel ----

/// Whether a line of a scan names a frequency within ten megahertz of a centre: in
/// its second field, between tabs.
pub open spec fn near(centre: int) -> spec_fn(Seq<char>) -> bool {
    |line: Seq<char>|
        {
            let fs = pieces(line, '\t');
            fs.len() >= 2 && (parse_dec(trim(fs[1]), 0xffff_ffff) matches Some(f) && centre - 10
                <= f <= centre + 10)
        }
}

/// The networks that keep a channel busy are those of the lines behind the first
/// that are near it.
pub proof fn law_how_busy_a_channel_is(ls: Seq<Seq<char>>, centre: int)
    requires
        ls.len() >= 1,
    ensures
        busy(ls, 1, centre) == ls.skip(1).filter(near(centre)).len(),
{
    lemma_busy(ls, 1, centre);
}

proof fn lemma_busy(ls: Seq<Seq<char>>, i: int, centre: int)
    requires
        0 <= i <= ls.len(),
    ensures
        busy(ls, i, centre) == ls.skip(i).filter(near(centre)).len(),
    decreases ls.len() - i,
{
    let keep = near(centre);
    let all = ls.skip(i);
    if i < ls.len() {
        lemma_busy(ls, i + 1, centre);
        let rest = ls.skip(i + 1);
        assert(all =~= seq![ls[i]] + rest);
        lemma_filter_first(ls[i], rest, keep);
        assert(keep(ls[i]) <==> (scan_freq(ls[i]) matches Some(f) && centre - 10 <= f <= centre
            + 10));
    } else {
        reveal(Seq::filter);
        assert(all =~= Seq::empty());
    }
}

proof fn lemma_filter_first(
    m: Seq<char>,
    rest: Seq<Seq<char>>,
    keep: spec_fn(Seq<char>) -> bool,
)
    ensures
        (seq![m] + rest).filter(keep).len() == (if keep(m) {
            1nat
        } else {
            0
        }) + rest.filter(keep).len(),
    decreases rest.len(),
{
    reveal(Seq::filter);
    let all = seq![m] + rest;
    if rest.len() == 0 {
        assert(all.drop_last() =~= Seq::empty());
        assert(all.last() == m);
        assert(Seq::<Seq<char>>::empty().filter(keep) =~= Seq::empty());
    } else {
        assert(all.drop_last() =~= seq![m] + rest.drop_last());
        lemma_filter_first(m, rest.drop_last(), keep);
        assert(all.last() == rest.last());
    }
}

/// The channel that is taken is one of 1, 6 and 11, and none of the others is less
/// busy; of those that are equally busy it is the lowest, but channel 6 where all
/// are free.
pub proof fn law_the_least_busy_channel(results: Seq<char>)
    ensures
        ({
            let ls = lines(results);
            let (a, b, c) = (busy(ls, 1, 2412), busy(ls, 1, 2437), busy(ls, 1, 2462));
            let taken = least_busy(results);
            &&& taken == 1 || taken == 6 || taken == 11
            &&& taken == 1 ==> a <= b && a <= c
            &&& taken == 6 ==> b <= a && b <= c
            &&& taken == 11 ==> c <= a && c <= b
            &&& taken == 6 && a + b + c > 0 ==> b < a
            &&& taken == 11 ==> c < a && c < b
            &&& a + b + c == 0 ==> taken == 6
        }),
{
}

// ---- what is offered ----

/// The sink offers one mode, bit 5 of the CEA table, in constrained high at level 4;
/// stereo at 48 kHz; and takes no more than eight megabits.
pub proof fn law_what_the_sink_offers(rtp_port: u16)
    ensures
        ({
            let c = capabilities_of(rtp_port);
            &&& c.video.cea == 32 && c.video.vesa == 0 && c.video.hh == 0
            &&& c.video.profile == 2 && c.video.level == 4
            &&& c.audio.lpcm_modes == 2
            &&& c.ports.rtp_port == rtp_port
            &&& c.max_bitrate_kbps == 8000
            &&& c.latency_management && c.format_change
        }),
{
}

/// The one address that is given away is next to our own, in a net of eight, for an
/// hour.
pub proof fn law_the_one_lease(datagram: Seq<u8>)
    ensures
        lease_of().server.bytes() == seq![192u8, 168, 173, 1],
        lease_of().client.bytes() == seq![192u8, 168, 173, 2],
        lease_of().netmask.bytes() == seq![255u8, 255, 255, 248],
        lease_of().lease_secs == 3600,
        dhcp_met(datagram).len() <= 1,
        (crate::miracast::dhcp::parsed(datagram) is None) ==> dhcp_met(datagram).len() == 0,
        (crate::miracast::dhcp::parsed(datagram) matches Some(r)
            ==> crate::miracast::dhcp::answered(r, lease_of()) matches Some(p) ==> dhcp_met(datagram)
            == seq![ServeActionView::SendDhcp(p)]),
{
}

/// A reply refuses a command if it is the word `FAIL`, alone or ahead of others.
pub proof fn law_what_refuses(reply: Seq<char>)
    ensures
        refuses(reply) <==> trim(reply) == "FAIL"@ || has_prefix(trim(reply), "FAIL "@),
{
}

/// A session is named by its four bytes, two digits each.
pub proof fn law_the_name_of_a_session(b: Seq<u8>)
    ensures
        session_id_text(b) == zero_fill(hex(b[0] as nat), 2) + zero_fill(hex(b[1] as nat), 2)
            + zero_fill(hex(b[2] as nat), 2) + zero_fill(hex(b[3] as nat), 2),
{
}

// ---- the radio ----

/// What the radio reports: a source that provisions is shown a PIN, which is also
/// told to the supplicant; a failed pairing is shown; a client that is new is
/// remembered, whatever case its address is in; and when the client or the group is
/// gone, the display is given back and the group ends.
pub proof fn law_what_the_radio_reports(s: ServiceState, e: EventView, entropy: Seq<u8>)
    ensures
        ({
            let (t, acts) = radio_met(s, e, entropy);
            let number = (16777216 * entropy[0] + 65536 * entropy[1] + 256 * entropy[2]
                + entropy[3]) as u32;
            let pin = pin_text(number);
            &&& e is ProvisionRequest ==> t == s && acts == seq![
                ServeActionView::Out(SinkOutView::Pin(pin)),
                ServeActionView::Say("WPS_PIN any "@ + pin),
            ]
            &&& e is WpsFail ==> t == s && acts == seq![
                ServeActionView::Out(SinkOutView::Ended("pairing failed"@)),
            ]
            &&& e matches EventView::ClientConnected { mac } ==> {
                let name = lowered(mac);
                &&& s.peers.contains(name) ==> t == s && acts.len() == 0
                &&& !s.peers.contains(name) ==> t == (ServiceState {
                    peers: s.peers.push(name),
                    ..s
                }) && acts == seq![ServeActionView::WritePeers(peers_text(s.peers.push(name)))]
            }
            &&& (e is ClientDisconnected || e is GroupRemoved) && s.held ==> t == s && acts == seq![
                ServeActionView::Release,
                ServeActionView::Out(SinkOutView::Ended("peer disconnected"@)),
                ServeActionView::Finish,
            ]
            &&& (e is ClientDisconnected || e is GroupRemoved) && !s.held ==> t == s && acts == seq![
                ServeActionView::Out(SinkOutView::Ended("peer disconnected"@)),
                ServeActionView::Finish,
            ]
            &&& e is WpsSuccess || e is GroupStarted ==> t == s && acts.len() == 0
        }),
{
}

// ---- the session ----

/// What the events of a session come to: text is written, media and the start are
/// passed on, and an end is noted until the pass is over.
pub proof fn law_what_events_come_to(
    ended: Option<Seq<char>>,
    e: SinkEventView,
    ends_later: bool,
)
    ensures
        ({
            let (x, out) = dispatched(ended, e, ends_later);
            &&& e matches SinkEventView::SendRtsp(text) ==> x == ended && out == seq![
                ServeActionView::WriteRtsp { text, ends_later },
            ]
            &&& e matches SinkEventView::Video { data, pts_us } ==> x == ended && out == seq![
                ServeActionView::Out(SinkOutView::Video { data, pts_us }),
            ]
            &&& e matches SinkEventView::Audio { data, pts_us } ==> x == ended && out == seq![
                ServeActionView::Out(SinkOutView::Audio { data, pts_us }),
            ]
            &&& e is Started ==> x == ended && out == seq![
                ServeActionView::Out(SinkOutView::Started),
            ]
            &&& e matches SinkEventView::Ended(why) ==> x == Some(why) && out.len() == 0
        }),
{
}

/// Once a session has ended, that is told with its reason, the display is given
/// back if it was ours, and the group ends; in that order. Otherwise nothing
/// happens at the end of a pass.
pub proof fn law_how_a_pass_ends(s: ServiceState)
    ensures
        s.ended is None ==> pass_over(s).len() == 0,
        s.ended matches Some(why) ==> {
            &&& s.held ==> pass_over(s) == seq![
                ServeActionView::Out(SinkOutView::Ended(why)),
                ServeActionView::Release,
                ServeActionView::Finish,
            ]
            &&& !s.held ==> pass_over(s) == seq![
                ServeActionView::Out(SinkOutView::Ended(why)),
                ServeActionView::Finish,
            ]
        },
{
    if let Some(why) = s.ended {
        let told = seq![ServeActionView::Out(SinkOutView::Ended(why))];
        if s.held {
            assert(pass_over(s) =~= seq![
                ServeActionView::Out(SinkOutView::Ended(why)),
                ServeActionView::Release,
                ServeActionView::Finish,
            ]);
        } else {
            assert(pass_over(s) =~= seq![
                ServeActionView::Out(SinkOutView::Ended(why)),
                ServeActionView::Finish,
            ]);
        }
    }
}

/// A write that failed ends the session for that reason, unless an end that came
/// with it stands.
pub proof fn law_what_a_failed_write_means(
    ended: Option<Seq<char>>,
    error: Seq<char>,
    ends_later: bool,
)
    ensures
        ends_later ==> write_failed(ended, error, ends_later) == ended,
        !ends_later ==> write_failed(ended, error, ends_later) == Some("RTSP write: "@ + error),
{
}

/// The peers of a file are its lines, trimmed and in small letters, without blank
/// ones and comments.
pub proof fn law_which_lines_are_peers(ls: Seq<Seq<char>>, i: int)
    requires
        0 <= i < ls.len(),
    ensures
        ({
            let l = trim(ls[i]);
            &&& l.len() == 0 ==> peers_from(ls, i) == peers_from(ls, i + 1)
            &&& l.len() > 0 && l[0] == '#' ==> peers_from(ls, i) == peers_from(ls, i + 1)
            &&& l.len() > 0 && l[0] != '#' ==> peers_from(ls, i) == seq![lowered(l)] + peers_from(
                ls,
                i + 1,
            )
        }),
{
}

/// What time does to a session: ten seconds of silence stop it, and that is told; a
/// keep-alive that is due is sent as one message; otherwise nothing happens. A session
/// that is over stays as it is.
pub proof fn law_what_time_does_to_a_session(s: SessionState, now: Instant)
    ensures
        ({
            let n = s.negotiation;
            let (t, out) = session_ticked(s, now);
            let over = n.state == NegState::Done;
            let gone = n.last_heard matches Some(h) && now.nanos > h.nanos + 10_000_000_000;
            let due = if n.last_keepalive is Some {
                now.nanos >= n.last_keepalive->0.nanos + 5_000_000_000
            } else {
                n.last_heard matches Some(h) && now.nanos >= h.nanos + 5_000_000_000
            };
            &&& over ==> t == s && out.len() == 0
            &&& !over && gone ==> !t.playing && out == seq![
                SinkEventView::Ended("no keep-alive reply for 10 s"@),
            ]
            &&& !over && !gone && due ==> t.playing == s.playing && out.len() == 1 && out[0]
                is SendRtsp && t.negotiation.last_keepalive == Some(now)
            &&& !over && !gone && !due ==> t == s && out.len() == 0
        }),
{
    crate::miracast::rtsp_exchange::law_what_time_does(s.negotiation, now);
    reveal_with_fuel(crate::miracast::session::acted_from, 3);
}

} // verus!
