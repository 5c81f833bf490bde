//! Our source and our sink understand each other.
use vstd::prelude::*;
use crate::miracast::rtsp::{
    applied, chosen_mode, first_word, handled, header_lines, mode_720p30, reply, Applied,
    MessageView, NegotiationState, StartLineView, VideoMode,
};
use crate::miracast::rtsp_laws::{lacks, tight};
use crate::miracast::source::caps_laws::{
    clean, law_parameters_read_back, lemma_clean_words, lemma_dec_is_clean, lemma_step,
    lemma_three, lemma_wide_is_clean, writable_parameter,
};
use crate::miracast::source::session::{selection_text, PRESENTATION_URL};
use crate::miracast::wfd::{parameters, wide, Pair};
use crate::number::{dec, hex_capitals, law_parse_hex_of_capitals, parse_hex, zero_fill};
use crate::text::{spaced, trim, words};
use crate::time::Instant;

verus! {

/// The words that select one CEA mode.
pub open spec fn selection_words(bit: u32) -> Seq<Seq<char>> {
    seq![
        "00"@,
        "00"@,
        "02"@,
        "04"@,
        wide(bit as nat, 8),
        "00000000"@,
        "00000000"@,
        "00"@,
        "0000"@,
        "0000"@,
        "00"@,
        "none"@,
        "none"@,
    ]
}

pub open spec fn selection_ports(port: u16) -> Seq<Seq<char>> {
    seq!["RTP/AVP/UDP;unicast"@, dec(port as nat), "0"@, "mode=play"@]
}

/// The parameters of the selection.
pub open spec fn selection_parameters(bit: u32, port: u16) -> Seq<Pair> {
    seq![
        ("wfd_video_formats"@, spaced(selection_words(bit), 0)),
        ("wfd_audio_codecs"@, "LPCM 00000002 00"@),
        ("wfd_presentation_URL"@, spaced(seq![PRESENTATION_URL@, "none"@], 0)),
        ("wfd_client_rtp_ports"@, spaced(selection_ports(port), 0)),
    ]
}

proof fn lemma_selection_words(bit: u32)
    ensures
        forall|k: int| 0 <= k < 13 ==> clean(#[trigger] selection_words(bit)[k]),
        parse_hex(selection_words(bit)[4], u32::MAX as nat) == Some(bit as nat),
        parse_hex(selection_words(bit)[5], u32::MAX as nat) == Some(0nat),
        parse_hex(selection_words(bit)[6], u32::MAX as nat) == Some(0nat),
{
    reveal_strlit("00");
    reveal_strlit("02");
    reveal_strlit("04");
    reveal_strlit("0000");
    reveal_strlit("00000000");
    reveal_strlit("none");
    lemma_wide_is_clean(bit as nat, 8, u32::MAX as nat);
    assert("00000000"@ =~= zero_fill(hex_capitals(0), 8));
    law_parse_hex_of_capitals(0, 8, u32::MAX as nat);
    assert(clean("00"@) && clean("02"@) && clean("04"@) && clean("0000"@) && clean("00000000"@)
        && clean("none"@));
}

proof fn lemma_port_and_url_words(port: u16)
    ensures
        forall|k: int| 0 <= k < 4 ==> clean(#[trigger] selection_ports(port)[k]),
        clean(PRESENTATION_URL@),
        clean("none"@),
{
    reveal_strlit("RTP/AVP/UDP;unicast");
    reveal_strlit("0");
    reveal_strlit("mode=play");
    reveal_strlit("none");
    reveal_strlit("rtsp://localhost/wfd1.0/streamid=0");
    lemma_dec_is_clean(port as nat);
    assert(clean("RTP/AVP/UDP;unicast"@) && clean("0"@) && clean("mode=play"@));
}

proof fn lemma_selection_names()
    ensures
        forall|v: Seq<char>|
            v.len() > 0 && tight(v) && lacks(v, '\r') && lacks(v, '\n') ==> writable_parameter(
                ("wfd_video_formats"@, v),
            ) && writable_parameter(("wfd_audio_codecs"@, v)) && writable_parameter(
                ("wfd_presentation_URL"@, v),
            ) && writable_parameter(("wfd_client_rtp_ports"@, v)),
{
    reveal_strlit("wfd_video_formats");
    reveal_strlit("wfd_audio_codecs");
    reveal_strlit("wfd_presentation_URL");
    reveal_strlit("wfd_client_rtp_ports");
}

proof fn lemma_selection_is_writable(bit: u32, port: u16)
    ensures
        forall|k: int|
            0 <= k < 4 ==> writable_parameter(#[trigger] selection_parameters(bit, port)[k]),
        words(spaced(selection_words(bit), 0)) == selection_words(bit),
        words(spaced(seq![PRESENTATION_URL@, "none"@], 0)) == seq![PRESENTATION_URL@, "none"@],
{
    lemma_selection_words(bit);
    lemma_port_and_url_words(port);
    lemma_clean_words(selection_words(bit));
    lemma_clean_words(selection_ports(port));
    lemma_clean_words(seq![PRESENTATION_URL@, "none"@]);
    reveal_strlit("LPCM 00000002 00");
    lemma_selection_names();
}

/// The line that selects a mode is its name and its words.
proof fn lemma_selection_line(bit: u32)
    ensures
        "wfd_video_formats: 00 00 02 04 "@ + zero_fill(hex_capitals(bit as nat), 8)
            + " 00000000 00000000 00 0000 0000 00 none none\r\n"@ == "wfd_video_formats"@ + ": "@
            + spaced(selection_words(bit), 0) + "\r\n"@,
{
    let ws = selection_words(bit);
    reveal_strlit("wfd_video_formats: 00 00 02 04 ");
    reveal_strlit("wfd_video_formats");
    reveal_strlit(": ");
    reveal_strlit("\r\n");
    reveal_strlit("00");
    reveal_strlit("02");
    reveal_strlit("04");
    reveal_strlit("0000");
    reveal_strlit("00000000");
    reveal_strlit("none");
    reveal_strlit(" 00000000 00000000 00 0000 0000 00 none none\r\n");
    let sp = seq![' '];
    let nl = "\r\n"@;
    let t5 = spaced(ws, 5);
    let tail = " 00000000 00000000 00 0000 0000 00 none none\r\n"@;
    assert(sp + t5 + nl =~= tail) by {
        reveal_with_fuel(spaced, 9);
    }
    let k = "wfd_video_formats"@ + ": "@;
    let head = "wfd_video_formats: 00 00 02 04 "@;
    assert(head =~= k + "00"@ + sp + "00"@ + sp + "02"@ + sp + "04"@ + sp);
    lemma_three(head, ws[4], sp, t5);
    assert(head + ws[4] + tail =~= head + ws[4] + (sp + t5) + nl);
    assert(head + ws[4] + (sp + t5) == head + spaced(ws, 4));
    lemma_step(k + "00"@ + sp + "00"@ + sp + "02"@ + sp, "04"@, sp, spaced(ws, 4));
    lemma_step(k + "00"@ + sp + "00"@ + sp, "02"@, sp, spaced(ws, 3));
    lemma_step(k + "00"@ + sp, "00"@, sp, spaced(ws, 2));
    lemma_step(k, "00"@, sp, spaced(ws, 1));
}

proof fn lemma_other_lines(port: u16)
    ensures
        "wfd_audio_codecs: LPCM 00000002 00\r\n"@ == "wfd_audio_codecs"@ + ": "@
            + "LPCM 00000002 00"@ + "\r\n"@,
        "wfd_presentation_URL: "@ + PRESENTATION_URL@ + " none\r\n"@ == "wfd_presentation_URL"@
            + ": "@ + spaced(seq![PRESENTATION_URL@, "none"@], 0) + "\r\n"@,
        "wfd_client_rtp_ports: RTP/AVP/UDP;unicast "@ + dec(port as nat) + " 0 mode=play\r\n"@
            == "wfd_client_rtp_ports"@ + ": "@ + spaced(selection_ports(port), 0) + "\r\n"@,
{
    reveal_with_fuel(spaced, 4);
    reveal_strlit(": ");
    reveal_strlit("\r\n");
    reveal_strlit("wfd_audio_codecs: LPCM 00000002 00\r\n");
    reveal_strlit("wfd_audio_codecs");
    reveal_strlit("LPCM 00000002 00");
    assert("wfd_audio_codecs: LPCM 00000002 00\r\n"@ =~= "wfd_audio_codecs"@ + ": "@
        + "LPCM 00000002 00"@ + "\r\n"@);
    reveal_strlit("wfd_presentation_URL: ");
    reveal_strlit("wfd_presentation_URL");
    reveal_strlit(" none\r\n");
    reveal_strlit("none");
    let u = PRESENTATION_URL@;
    assert("wfd_presentation_URL: "@ + u + " none\r\n"@ =~= "wfd_presentation_URL"@ + ": "@
        + spaced(seq![u, "none"@], 0) + "\r\n"@);
    reveal_strlit("wfd_client_rtp_ports: RTP/AVP/UDP;unicast ");
    reveal_strlit("wfd_client_rtp_ports");
    reveal_strlit("RTP/AVP/UDP;unicast");
    reveal_strlit("0");
    reveal_strlit("mode=play");
    reveal_strlit(" 0 mode=play\r\n");
    let y = dec(port as nat);
    assert("wfd_client_rtp_ports: RTP/AVP/UDP;unicast "@ + y + " 0 mode=play\r\n"@
        =~= "wfd_client_rtp_ports"@ + ": "@ + spaced(selection_ports(port), 0) + "\r\n"@);
}

/// The selection is read as the parameters it was written from.
pub proof fn law_the_selection_reads_back(bit: u32, port: u16)
    ensures
        parameters(selection_text(bit, port)) == selection_parameters(bit, port),
{
    let ps = selection_parameters(bit, port);
    let e = Seq::<char>::empty();
    let nl = "\r\n"@;
    lemma_selection_line(bit);
    lemma_other_lines(port);
    lemma_selection_is_writable(bit, port);
    let l0 = ps[0].0 + ": "@ + ps[0].1 + nl;
    let l1 = ps[1].0 + ": "@ + ps[1].1 + nl;
    let l2 = ps[2].0 + ": "@ + ps[2].1 + nl;
    let l3 = ps[3].0 + ": "@ + ps[3].1 + nl;
    assert(header_lines(ps, 4) == e);
    assert(header_lines(ps, 3) == l3 + e);
    assert(header_lines(ps, 2) == l2 + (l3 + e));
    assert(header_lines(ps, 1) == l1 + (l2 + (l3 + e)));
    assert(header_lines(ps, 0) == l0 + (l1 + (l2 + (l3 + e))));
    lemma_four(l0, l1, l2, l3);
    assert(selection_text(bit, port) == l0 + l1 + l2 + l3);
    law_parameters_read_back(ps);
}

proof fn lemma_four(l0: Seq<char>, l1: Seq<char>, l2: Seq<char>, l3: Seq<char>)
    ensures
        l0 + l1 + l2 + l3 == l0 + (l1 + (l2 + (l3 + Seq::<char>::empty()))),
{
    assert(l3 + Seq::<char>::empty() =~= l3);
    assert(l0 + l1 + l2 + l3 =~= l0 + (l1 + (l2 + l3)));
}

/// What the words of a selection choose.
proof fn lemma_selection_chooses(bit: u32)
    ensures
        chosen_mode(spaced(selection_words(bit), 0)) == if bit == 0x20 {
            Some(mode_720p30())
        } else {
            None
        },
        first_word(spaced(seq![PRESENTATION_URL@, "none"@], 0)) == PRESENTATION_URL@,
{
    lemma_selection_words(bit);
    lemma_selection_is_writable(bit, 0);
    assert(selection_words(bit).len() == 13);
}

/// What setting four parameters named like those of a selection comes to.
proof fn lemma_four_applied(
    s: NegotiationState,
    ps: Seq<Pair>,
    mode: Option<VideoMode>,
    url: Seq<char>,
)
    requires
        ps.len() == 4,
        ps[0].0 == "wfd_video_formats"@,
        ps[1].0 == "wfd_audio_codecs"@,
        ps[2].0 == "wfd_presentation_URL"@,
        ps[3].0 == "wfd_client_rtp_ports"@,
        chosen_mode(ps[0].1) == mode,
        first_word(ps[2].1) == url,
    ensures
        applied(s, None, ps, 0) == match mode {
            Some(m) => Applied {
                state: NegotiationState { chosen: Some(m), presentation_url: url, ..s },
                trigger: None,
                ok: true,
            },
            None => Applied { state: s, trigger: None, ok: false },
        },
{
    reveal_strlit("wfd_video_formats");
    reveal_strlit("wfd_audio_codecs");
    reveal_strlit("wfd_presentation_URL");
    reveal_strlit("wfd_client_rtp_ports");
    reveal_strlit("wfd_trigger_method");
    assert("wfd_video_formats"@.len() == 17 && "wfd_audio_codecs"@.len() == 16
        && "wfd_presentation_URL"@.len() == 20 && "wfd_trigger_method"@.len() == 18);
    assert("wfd_presentation_URL"@[4] == 'p');
    assert("wfd_client_rtp_ports"@[4] == 'c' && "wfd_client_rtp_ports"@.len() == 20);
    if let Some(m) = mode {
        let s1 = NegotiationState { chosen: Some(m), ..s };
        let s2 = NegotiationState { presentation_url: url, ..s1 };
        assert(applied(s2, None, ps, 4) == (Applied { state: s2, trigger: None, ok: true }));
        assert(applied(s2, None, ps, 3) == applied(s2, None, ps, 4));
        assert(applied(s1, None, ps, 2) == applied(s2, None, ps, 3));
        assert(applied(s1, None, ps, 1) == applied(s1, None, ps, 2));
    }
}

/// A sink that offers 720p30 takes the source's selection of it: it records
/// that mode and the source's address and answers 200; any other selection it
/// refuses with 400.
pub proof fn law_the_sink_takes_the_selection(
    s: NegotiationState,
    m: MessageView,
    bit: u32,
    port: u16,
    now: Instant,
)
    requires
        m.start matches StartLineView::Request { method, .. } && method == "SET_PARAMETER"@,
        m.body == selection_text(bit, port),
    ensures
        bit == 0x20 ==> handled(s, m, now).0 == (NegotiationState {
            chosen: Some(mode_720p30()),
            presentation_url: PRESENTATION_URL@,
            last_heard: Some(now),
            ..s
        }) && handled(s, m, now).1 == seq![reply(200, m)],
        bit != 0x20 ==> handled(s, m, now).1 == seq![reply(400, m)] && handled(s, m, now).0.chosen
            == s.chosen,
{
    law_the_selection_reads_back(bit, port);
    lemma_selection_chooses(bit);
    let ps = selection_parameters(bit, port);
    let t = NegotiationState { last_heard: Some(now), ..s };
    let mode = if bit == 0x20 {
        Some(mode_720p30())
    } else {
        None
    };
    lemma_four_applied(t, ps, mode, PRESENTATION_URL@);
    reveal_strlit("SET_PARAMETER");
    reveal_strlit("GET_PARAMETER");
    reveal_strlit("OPTIONS");
    assert("SET_PARAMETER"@[0] == 'S' && "GET_PARAMETER"@[0] == 'G' && "OPTIONS"@[0] == 'O');
}

} // verus!
