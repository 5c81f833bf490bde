//! What holds of a display's capabilities and of the choice made from them.
use vstd::prelude::*;
use crate::miracast::rtsp::{header_lines, VideoMode};
use crate::miracast::rtsp_laws::{
    header_line, lacks, lemma_header_line_reads_back, lemma_header_lines_concat, tight,
    writable_header,
};
use crate::miracast::source::caps::{
    acceptable, affordable, bit_from, caps_of, carried_by, carried_from, cea, codec_of, codecs,
    codecs_from, cost, encodable, law_ranking_keeps_every_mode, lemma_place, level_for,
    modes_from, offer_of, offered_modes, offers, place, proposals, ranked, selected, value,
    value_from, better, CapsErrorView, Offer, SinkCapsView, VideoCodecCaps,
};
use crate::miracast::wfd::{
    capabilities_text, pair_of, parameters, parameters_from, video_line, wide, Capabilities,
    Pair,
};
use crate::number::{
    dec, is_hex_digit, law_dec_reads_back, law_parse_dec_of_dec, law_parse_hex_of_capitals,
    parse_dec, parse_hex,
};
use crate::proto::Mode;
use crate::text::{
    is_white_space, is_word, law_words_of_spaced, lemma_find_from_is, lemma_spaced_is_tight,
    lemma_spaced_lacks, lemma_trim_of_tight, lines, lines_from, pieces, rest, spaced, strip_cr,
    words,
};

verus! {

// ---- the choice ----

proof fn lemma_offer_of(os: Seq<Offer>, wanted: VideoMode, i: int)
    requires
        0 <= i,
    ensures
        offer_of(os, wanted, i) matches Some(o) ==> o.2 == wanted && exists|k: int|
            i <= k < os.len() && os[k] == o,
    decreases os.len() - i,
{
    if i < os.len() && os[i].2 != wanted {
        lemma_offer_of(os, wanted, i + 1);
    }
}

proof fn lemma_carried_from(cs: Seq<VideoCodecCaps>, wanted: VideoMode, level: u8, i: int)
    requires
        0 <= i,
    ensures
        carried_from(cs, wanted, level, i) matches Some(sel) ==> sel.mode == wanted && sel.level
            == level && modes_from(cs, i).contains(wanted) && exists|k: int|
            i <= k < cs.len() && #[trigger] carried_by(cs[k], wanted, level) == Some(sel),
    decreases cs.len() - i,
{
    if i < cs.len() {
        let os = offers(cs[i]);
        lemma_offer_of(os, wanted, 0);
        lemma_carried_from(cs, wanted, level, i + 1);
        let here = offered_modes(os);
        let after = modes_from(cs, i + 1);
        let all = modes_from(cs, i);
        match carried_by(cs[i], wanted, level) {
            Some(sel) => {
                let o = offer_of(os, wanted, 0).unwrap();
                let k = choose|k: int| 0 <= k < os.len() && os[k] == o;
                assert(all[k] == here[k] && here[k] == wanted);
            },
            None => {
                if carried_from(cs, wanted, level, i + 1) is Some {
                    let k = choose|k: int| 0 <= k < after.len() && after[k] == wanted;
                    assert(all[here.len() + k] == wanted);
                    let sel = carried_from(cs, wanted, level, i + 1).unwrap();
                    let j = choose|j: int|
                        i + 1 <= j < cs.len() && #[trigger] carried_by(cs[j], wanted, level)
                            == Some(sel);
                    assert(carried_by(cs[j], wanted, level) == Some(sel));
                }
            },
        }
    }
}

/// The order of preference is ours, not the display's: what is selected is the
/// first of our modes that the display can carry, and nothing is selected only
/// when it can carry none of them.
pub proof fn law_our_first_preference_wins(sink: SinkCapsView, ours: Seq<VideoMode>, i: int)
    requires
        0 <= i <= ours.len(),
    ensures
        selected(sink, ours, i) matches Some(sel) ==> exists|k: int|
            i <= k < ours.len() && #[trigger] acceptable(sink, ours[k]) == Some(sel) && forall|j: int|
                i <= j < k ==> acceptable(sink, #[trigger] ours[j]) is None,
        selected(sink, ours, i) is None ==> forall|j: int|
            i <= j < ours.len() ==> acceptable(sink, #[trigger] ours[j]) is None,
    decreases ours.len() - i,
{
    if i < ours.len() {
        law_our_first_preference_wins(sink, ours, i + 1);
        match acceptable(sink, ours[i]) {
            Some(sel) => {
                assert(acceptable(sink, ours[i]) == Some(sel));
            },
            None => {
                if let Some(sel) = selected(sink, ours, i + 1) {
                    let k = choose|k: int|
                        i + 1 <= k < ours.len() && #[trigger] acceptable(sink, ours[k]) == Some(sel)
                            && forall|j: int|
                            i + 1 <= j < k ==> acceptable(sink, #[trigger] ours[j]) is None;
                    assert(acceptable(sink, ours[k]) == Some(sel));
                }
            },
        }
    }
}

/// A selected mode is one that both sides offered.
pub proof fn law_the_choice_is_in_both_offers(sink: SinkCapsView, ours: Seq<VideoMode>)
    ensures
        selected(sink, ours, 0) matches Some(sel) ==> ours.contains(sel.mode) && modes_from(
            codecs(sink),
            0,
        ).contains(sel.mode) && level_for(sel.mode) == Some(sel.level) && sel.profile != 0,
{
    law_our_first_preference_wins(sink, ours, 0);
    if let Some(sel) = selected(sink, ours, 0) {
        let k = choose|k: int|
            0 <= k < ours.len() && #[trigger] acceptable(sink, ours[k]) == Some(sel) && forall|
                j: int,
            |
                0 <= j < k ==> acceptable(sink, #[trigger] ours[j]) is None;
        let level = level_for(ours[k]).unwrap();
        lemma_carried_from(codecs(sink), ours[k], level, 0);
        let j = choose|j: int|
            0 <= j < codecs(sink).len() && #[trigger] carried_by(codecs(sink)[j], ours[k], level)
                == Some(sel);
        assert(carried_by(codecs(sink)[j], ours[k], level) == Some(sel));
        assert(ours[k] == sel.mode);
    }
}

// ---- the proposals ----

/// Ranked modes stand in order of preference: nothing is preferred to what
/// stands before it.
pub proof fn law_ranked_modes_are_in_order(mode: Mode, all: Seq<VideoMode>, n: int)
    requires
        0 <= n <= all.len(),
    ensures
        forall|i: int, j: int|
            0 <= i < j < ranked(mode, all, n).len() ==> !better(
                mode,
                #[trigger] ranked(mode, all, n)[j],
                #[trigger] ranked(mode, all, n)[i],
            ),
    decreases n,
{
    if n > 0 {
        law_ranked_modes_are_in_order(mode, all, n - 1);
        let s = ranked(mode, all, n - 1);
        let m = all[n - 1];
        lemma_place(mode, s, m, 0);
        let k = place(mode, s, m, 0);
        let r = ranked(mode, all, n);
        assert forall|i: int, j: int| 0 <= i < j < r.len() implies !better(
            mode,
            #[trigger] r[j],
            #[trigger] r[i],
        ) by {
            let x = if i < k {
                s[i]
            } else if i == k {
                m
            } else {
                s[i - 1]
            };
            let y = if j < k {
                s[j]
            } else if j == k {
                m
            } else {
                s[j - 1]
            };
            assert(r[i] == x && r[j] == y);
            if i < k && j > k {
                assert(!better(mode, s[j - 1], s[i]));
            } else if i == k {
                assert(better(mode, m, s[k]));
                if j - 1 > k {
                    assert(!better(mode, s[j - 1], s[k]));
                }
            }
        }
    }
}

/// A display is never offered a mode that costs more than it says it can carry,
/// and every encodable mode that costs no more is offered.
pub proof fn law_proposals_fit_the_ceiling(s: Seq<VideoMode>, ceiling: Option<u16>, i: int)
    requires
        0 <= i <= s.len(),
    ensures
        forall|m: VideoMode|
            #[trigger] affordable(s, ceiling, i).contains(m) <==> s.skip(i).contains(m) && (
            ceiling matches Some(c) ==> cost(m) <= c),
    decreases s.len() - i,
{
    if i < s.len() {
        law_proposals_fit_the_ceiling(s, ceiling, i + 1);
        let a = affordable(s, ceiling, i);
        let b = affordable(s, ceiling, i + 1);
        assert forall|m: VideoMode| #[trigger] a.contains(m) <==> s.skip(i).contains(m) && (
        ceiling matches Some(c) ==> cost(m) <= c) by {
            assert(s.skip(i)[0] == s[i]);
            assert(b.contains(m) <==> s.skip(i + 1).contains(m) && (ceiling matches Some(c)
                ==> cost(m) <= c));
            assert(s.skip(i).contains(m) <==> (s[i] == m || s.skip(i + 1).contains(m))) by {
                let x = s.skip(i);
                let y = s.skip(i + 1);
                if x.contains(m) && s[i] != m {
                    let k = choose|k: int| 0 <= k < x.len() && x[k] == m;
                    assert(y[k - 1] == m);
                }
                if y.contains(m) {
                    let k = choose|k: int| 0 <= k < y.len() && y[k] == m;
                    assert(x[k + 1] == m);
                }
            }
            if ceiling matches Some(c) && cost(s[i]) > c {
                assert(a == b);
            } else {
                assert(a =~= seq![s[i]] + b);
                assert(a.contains(m) <==> (s[i] == m || b.contains(m))) by {
                    if a.contains(m) && s[i] != m {
                        let k = choose|k: int| 0 <= k < a.len() && a[k] == m;
                        assert(b[k - 1] == m);
                    }
                    if b.contains(m) {
                        let k = choose|k: int| 0 <= k < b.len() && b[k] == m;
                        assert(a[k + 1] == m);
                    }
                    assert(a[0] == s[i]);
                }
            }
        }
    } else {
        assert(s.skip(i) =~= Seq::empty());
    }
}

/// Whether a mode costs no more than a ceiling allows.
pub open spec fn within(ceiling: u16) -> spec_fn(VideoMode) -> bool {
    |m: VideoMode| cost(m) <= ceiling
}

proof fn lemma_affordable_is_a_filter(s: Seq<VideoMode>, ceiling: u16, i: int)
    requires
        0 <= i <= s.len(),
    ensures
        affordable(s, Some(ceiling), i) == s.skip(i).filter(within(ceiling)),
    decreases s.len() - i,
{
    reveal(Seq::filter);
    let keep = within(ceiling);
    let t = s.skip(i);
    if i < s.len() {
        lemma_affordable_is_a_filter(s, ceiling, i + 1);
        let rest = s.skip(i + 1);
        assert(t =~= seq![s[i]] + rest);
        lemma_filter_first(s[i], rest, keep);
    } else {
        assert(t.filter(keep) =~= Seq::empty());
    }
}

proof fn lemma_filter_first(m: VideoMode, rest: Seq<VideoMode>, keep: spec_fn(VideoMode) -> bool)
    ensures
        (seq![m] + rest).filter(keep) == (if keep(m) {
            seq![m]
        } else {
            Seq::empty()
        }) + rest.filter(keep),
    decreases rest.len(),
{
    reveal(Seq::filter);
    let all = seq![m] + rest;
    if rest.len() == 0 {
        assert(all.drop_last() =~= Seq::empty());
        assert(all.last() == m);
        assert(Seq::<VideoMode>::empty().filter(keep) =~= Seq::empty());
        assert(all.filter(keep) =~= (if keep(m) {
            seq![m]
        } else {
            Seq::empty()
        }) + rest.filter(keep));
    } else {
        assert(all.drop_last() =~= seq![m] + rest.drop_last());
        lemma_filter_first(m, rest.drop_last(), keep);
        assert(all.filter(keep) =~= (if keep(m) {
            seq![m]
        } else {
            Seq::empty()
        }) + rest.filter(keep));
    }
}

/// Without a ceiling, thirteen modes are proposed, no two the same, in order of
/// preference; the two ways to lean propose the same modes in another order. A
/// ceiling takes out those that cost more, and leaves the others in their order.
pub proof fn law_the_proposals_of_a_mode(mode: Mode, ceiling: u16)
    ensures
        ({
            let all = proposals(mode, None);
            &&& all.len() == 13
            &&& all.no_duplicates()
            &&& forall|i: int, j: int|
                0 <= i < j < all.len() ==> !better(mode, #[trigger] all[j], #[trigger] all[i])
            &&& proposals(mode, Some(ceiling)) == all.filter(within(ceiling))
        }),
        proposals(Mode::Quality, None).to_multiset() == proposals(Mode::Game, None).to_multiset(),
{
    let e = encodable();
    let n = e.len() as int;
    lemma_all_proposed(Mode::Quality);
    lemma_all_proposed(Mode::Game);
    lemma_all_proposed(mode);
    law_ranked_modes_are_in_order(mode, e, n);
    let all = proposals(mode, None);
    lemma_affordable_is_a_filter(ranked(mode, e, n), ceiling, 0);
    assert(ranked(mode, e, n).skip(0) =~= all);
}

proof fn lemma_all_proposed(mode: Mode)
    ensures
        proposals(mode, None) == ranked(mode, encodable(), encodable().len() as int),
        proposals(mode, None).len() == 13,
        proposals(mode, None).to_multiset() == encodable().to_multiset(),
        proposals(mode, None).no_duplicates(),
{
    let e = encodable();
    let n = e.len() as int;
    let r = ranked(mode, e, n);
    law_ranking_keeps_every_mode(mode, e, n);
    assert(e.take(n) =~= e);
    lemma_no_ceiling(r, 0);
    assert(r.skip(0) =~= r);
    assert(e.no_duplicates());
    e.lemma_multiset_has_no_duplicates();
    r.lemma_multiset_has_no_duplicates_conv();
}

proof fn lemma_no_ceiling(s: Seq<VideoMode>, i: int)
    requires
        0 <= i <= s.len(),
    ensures
        affordable(s, None, i) == s.skip(i),
    decreases s.len() - i,
{
    if i < s.len() {
        lemma_no_ceiling(s, i + 1);
        assert(s.skip(i) =~= seq![s[i]] + s.skip(i + 1));
    } else {
        assert(s.skip(i) =~= Seq::empty());
    }
}

// ---- the bit of a mode ----

/// A mode of the CEA table is selected by its own bit and no other.
pub proof fn law_the_bit_of_a_mode(bit: u32)
    requires
        bit < 32,
        cea(bit) is Some,
    ensures
        bit_from(cea(bit).unwrap(), 0) == Some(1u32 << bit),
{
    reveal_with_fuel(bit_from, 18);
}

// ---- our own sink ----

/// Whether a parameter can be written on a line of its own.
pub open spec fn writable_parameter(p: Pair) -> bool {
    writable_header(p) && p.0.len() > 0 && p.1.len() > 0 && lacks(p.0, '\n') && lacks(p.1, '\n')
}

proof fn lemma_lines_of_parameters(pre: Seq<char>, ps: Seq<Pair>, i: int)
    requires
        0 <= i <= ps.len(),
        forall|k: int| 0 <= k < ps.len() ==> writable_parameter(#[trigger] ps[k]),
    ensures
        lines_from(pre + header_lines(ps, i), pre.len() as int) == Seq::new(
            (ps.len() - i) as nat,
            |k: int| header_line(ps[i + k]),
        ),
    decreases ps.len() - i,
{
    reveal_strlit(": ");
    reveal_strlit("\r\n");
    let s = pre + header_lines(ps, i);
    let a = pre.len() as int;
    let all = Seq::new((ps.len() - i) as nat, |k: int| header_line(ps[i + k]));
    if i == ps.len() {
        assert(all =~= Seq::empty());
    } else {
        let p = ps[i];
        assert(writable_parameter(p));
        let l = header_line(p);
        let b = a + l.len() + 1;
        assert(s[b] == '\n' && s[b - 1] == '\r');
        assert forall|j: int| a <= j < b implies s[j] != '\n' by {
            if j < a + p.0.len() {
                assert(s[j] == p.0[j - a]);
            } else if a + p.0.len() + 2 <= j < a + l.len() {
                assert(s[j] == p.1[j - a - p.0.len() - 2]);
            }
        }
        lemma_find_from_is(s, '\n', a, b);
        assert(s.subrange(a, b) =~= l.push('\r'));
        assert(strip_cr(s.subrange(a, b)) =~= l);
        let pre2 = pre + l + "\r\n"@;
        assert(s =~= pre2 + header_lines(ps, i + 1));
        lemma_lines_of_parameters(pre2, ps, i + 1);
        let more = Seq::new((ps.len() - i - 1) as nat, |k: int| header_line(ps[i + 1 + k]));
        assert(all =~= seq![l] + more);
    }
}

proof fn lemma_parameters_of_lines(ps: Seq<Pair>, ls: Seq<Seq<char>>, i: int)
    requires
        0 <= i <= ps.len(),
        ls.len() == ps.len(),
        forall|k: int| 0 <= k < ps.len() ==> writable_parameter(#[trigger] ps[k]),
        forall|k: int| 0 <= k < ps.len() ==> #[trigger] ls[k] == header_line(ps[k]),
    ensures
        parameters_from(ls, i) == ps.skip(i),
    decreases ps.len() - i,
{
    reveal_strlit(": ");
    if i < ps.len() {
        lemma_parameters_of_lines(ps, ls, i + 1);
        let p = ps[i];
        assert(writable_parameter(p));
        let l = ls[i];
        assert(l[0] == p.0[0]);
        assert(l.last() == p.1.last());
        lemma_trim_of_tight(l);
        lemma_header_line_reads_back(p);
        assert(pair_of(l) == p);
        assert(ps.skip(i) =~= seq![p] + ps.skip(i + 1));
    } else {
        assert(ps.skip(i) =~= Seq::empty());
    }
}

/// Parameters that were written one to a line are read as they were written.
pub proof fn law_parameters_read_back(ps: Seq<Pair>)
    requires
        forall|k: int| 0 <= k < ps.len() ==> writable_parameter(#[trigger] ps[k]),
    ensures
        parameters(header_lines(ps, 0)) == ps,
{
    let t = header_lines(ps, 0);
    lemma_lines_of_parameters(Seq::empty(), ps, 0);
    assert(Seq::<char>::empty() + t =~= t);
    lemma_parameters_of_lines(ps, lines(t), 0);
    assert(ps.skip(0) =~= ps);
}

/// The words of the video formats line after its name.
pub open spec fn video_words(c: Capabilities) -> Seq<Seq<char>> {
    seq![
        "40"@,
        "00"@,
        wide(c.video.profile as nat, 2),
        wide(c.video.level as nat, 2),
        wide(c.video.cea as nat, 8),
        wide(c.video.vesa as nat, 8),
        wide(c.video.hh as nat, 8),
        "00"@,
        "0000"@,
        "0000"@,
        "00"@,
        "none"@,
        "none"@,
    ]
}

pub open spec fn audio_words(c: Capabilities) -> Seq<Seq<char>> {
    seq!["LPCM"@, wide(c.audio.lpcm_modes as nat, 8), "00"@]
}

pub open spec fn port_words(c: Capabilities) -> Seq<Seq<char>> {
    seq!["RTP/AVP/UDP;unicast"@, dec(c.ports.rtp_port as nat), "0"@, "mode=play"@]
}

/// Whether a text is a word without a comma.
pub open spec fn clean(w: Seq<char>) -> bool {
    w.len() > 0 && forall|j: int|
        0 <= j < w.len() ==> !is_white_space(#[trigger] w[j]) && w[j] != ','
}

pub proof fn lemma_wide_is_clean(n: nat, width: nat, max: nat)
    requires
        n <= max,
    ensures
        clean(wide(n, width)),
        parse_hex(wide(n, width), max) == Some(n),
{
    law_parse_hex_of_capitals(n, width, max);
    let w = wide(n, width);
    assert forall|j: int| 0 <= j < w.len() implies !is_white_space(#[trigger] w[j]) && w[j]
        != ',' by {
        assert(is_hex_digit(w[j]));
    }
}

pub proof fn lemma_dec_is_clean(n: nat)
    ensures
        clean(dec(n)),
{
    law_dec_reads_back(n);
    let w = dec(n);
    assert forall|j: int| 0 <= j < w.len() implies !is_white_space(#[trigger] w[j]) && w[j]
        != ',' by {
        assert(crate::number::is_digit(w[j]));
    }
}

/// Clean words with spaces between them make a value that can be written, and
/// that is read as those words.
pub proof fn lemma_clean_words(ws: Seq<Seq<char>>)
    requires
        ws.len() > 0,
        forall|k: int| 0 <= k < ws.len() ==> clean(#[trigger] ws[k]),
    ensures
        words(spaced(ws, 0)) == ws,
        spaced(ws, 0).len() > 0,
        tight(spaced(ws, 0)),
        lacks(spaced(ws, 0), '\r'),
        lacks(spaced(ws, 0), '\n'),
        lacks(spaced(ws, 0), ','),
{
    assert forall|k: int| 0 <= k < ws.len() implies is_word(#[trigger] ws[k]) by {
        assert(clean(ws[k]));
    }
    law_words_of_spaced(ws);
    lemma_spaced_is_tight(ws, 0);
    assert forall|k: int, j: int| 0 <= k < ws.len() && 0 <= j < ws[k].len() implies #[trigger] ws[k][j]
        != '\r' && ws[k][j] != '\n' && ws[k][j] != ',' by {
        assert(clean(ws[k]));
        assert(!is_white_space(ws[k][j]));
    }
    lemma_spaced_lacks(ws, 0, '\r');
    lemma_spaced_lacks(ws, 0, '\n');
    lemma_spaced_lacks(ws, 0, ',');
}

proof fn lemma_video_words(c: Capabilities)
    ensures
        forall|k: int| 0 <= k < 13 ==> clean(#[trigger] video_words(c)[k]),
        codec_of(video_words(c), 2) == Some(
            VideoCodecCaps {
                profile: c.video.profile,
                level: c.video.level,
                cea: c.video.cea,
                vesa: c.video.vesa,
                hh: c.video.hh,
            },
        ),
{
    reveal_strlit("40");
    reveal_strlit("00");
    reveal_strlit("0000");
    reveal_strlit("none");
    lemma_wide_is_clean(c.video.profile as nat, 2, 255);
    lemma_wide_is_clean(c.video.level as nat, 2, 255);
    lemma_wide_is_clean(c.video.cea as nat, 8, u32::MAX as nat);
    lemma_wide_is_clean(c.video.vesa as nat, 8, u32::MAX as nat);
    lemma_wide_is_clean(c.video.hh as nat, 8, u32::MAX as nat);
    assert(clean("40"@) && clean("00"@) && clean("0000"@) && clean("none"@));
}

proof fn lemma_audio_words(c: Capabilities)
    ensures
        forall|k: int| 0 <= k < 3 ==> clean(#[trigger] audio_words(c)[k]),
        parse_hex(audio_words(c)[1], u32::MAX as nat) == Some(c.audio.lpcm_modes as nat),
{
    reveal_strlit("LPCM");
    reveal_strlit("00");
    lemma_wide_is_clean(c.audio.lpcm_modes as nat, 8, u32::MAX as nat);
    assert(clean("LPCM"@) && clean("00"@));
}

proof fn lemma_port_words(c: Capabilities)
    ensures
        forall|k: int| 0 <= k < 4 ==> clean(#[trigger] port_words(c)[k]),
        parse_dec(port_words(c)[1], u16::MAX as nat) == Some(c.ports.rtp_port as nat),
{
    reveal_strlit("RTP/AVP/UDP;unicast");
    reveal_strlit("0");
    reveal_strlit("mode=play");
    lemma_dec_is_clean(c.ports.rtp_port as nat);
    law_parse_dec_of_dec(c.ports.rtp_port as nat, u16::MAX as nat);
    assert(clean("RTP/AVP/UDP;unicast"@) && clean("0"@) && clean("mode=play"@));
}

/// The five parameters that are always there.
pub open spec fn fixed_parameters(c: Capabilities) -> Seq<Pair> {
    seq![
        ("wfd_video_formats"@, spaced(video_words(c), 0)),
        ("wfd_audio_codecs"@, spaced(audio_words(c), 0)),
        ("wfd_content_protection"@, "none"@),
        ("wfd_client_rtp_ports"@, spaced(port_words(c), 0)),
        ("microsoft_max_bitrate"@, dec(c.max_bitrate_kbps as nat)),
    ]
}

pub open spec fn optional_parameters(c: Capabilities) -> Seq<Pair> {
    (if c.latency_management {
        seq![("microsoft_latency_management_capability"@, "supported"@)]
    } else {
        seq![]
    }) + (if c.format_change {
        seq![("microsoft_format_change_support"@, "supported"@)]
    } else {
        seq![]
    })
}

proof fn lemma_names_are_writable()
    ensures
        forall|v: Seq<char>|
            v.len() > 0 && tight(v) && lacks(v, '\r') && lacks(v, '\n') ==> writable_parameter(
                ("wfd_video_formats"@, v),
            ) && writable_parameter(("wfd_audio_codecs"@, v)) && writable_parameter(
                ("wfd_content_protection"@, v),
            ) && writable_parameter(("wfd_client_rtp_ports"@, v)) && writable_parameter(
                ("microsoft_max_bitrate"@, v),
            ) && writable_parameter(("microsoft_latency_management_capability"@, v))
                && writable_parameter(("microsoft_format_change_support"@, v)),
{
    reveal_strlit("wfd_video_formats");
    reveal_strlit("wfd_audio_codecs");
    reveal_strlit("wfd_content_protection");
    reveal_strlit("wfd_client_rtp_ports");
    reveal_strlit("microsoft_max_bitrate");
    reveal_strlit("microsoft_latency_management_capability");
    reveal_strlit("microsoft_format_change_support");
}

proof fn lemma_capability_parameters_are_writable(c: Capabilities)
    ensures
        forall|k: int|
            0 <= k < (fixed_parameters(c) + optional_parameters(c)).len() ==> writable_parameter(
                #[trigger] (fixed_parameters(c) + optional_parameters(c))[k],
            ),
{
    lemma_video_words(c);
    lemma_audio_words(c);
    lemma_port_words(c);
    lemma_clean_words(video_words(c));
    lemma_clean_words(audio_words(c));
    lemma_clean_words(port_words(c));
    lemma_dec_is_clean(c.max_bitrate_kbps as nat);
    let d = dec(c.max_bitrate_kbps as nat);
    assert(lacks(d, '\r') && lacks(d, '\n')) by {
        assert forall|j: int| 0 <= j < d.len() implies d[j] != '\r' && d[j] != '\n' by {
            assert(!is_white_space(d[j]));
        }
    }
    reveal_strlit("none");
    reveal_strlit("supported");
    lemma_names_are_writable();
}

/// The video line is its name and its words.
proof fn lemma_video_line(c: Capabilities)
    ensures
        video_line(c.video) == "wfd_video_formats"@ + ": "@ + spaced(video_words(c), 0),
{
    let ws = video_words(c);
    reveal_strlit("wfd_video_formats: 40 00 ");
    reveal_strlit("wfd_video_formats");
    reveal_strlit(": ");
    reveal_strlit(" ");
    reveal_strlit("40");
    reveal_strlit("00");
    reveal_strlit("0000");
    reveal_strlit("none");
    reveal_strlit(" 00 0000 0000 00 none none");
    let sp = seq![' '];
    assert(" "@ =~= sp);
    let t7 = spaced(ws, 7);
    assert(sp + t7 =~= " 00 0000 0000 00 none none"@) by {
        reveal_with_fuel(spaced, 7);
    }
    let head = "wfd_video_formats: 40 00 "@;
    assert(head =~= "wfd_video_formats"@ + ": "@ + "40"@ + sp + "00"@ + sp);
    let x0 = head;
    let x1 = x0 + ws[2] + sp;
    let x2 = x1 + ws[3] + sp;
    let x3 = x2 + ws[4] + sp;
    let x4 = x3 + ws[5] + sp;
    assert(video_line(c.video) == x4 + ws[6] + (sp + t7));
    assert(x4 + ws[6] + (sp + t7) == x4 + spaced(ws, 6)) by {
        lemma_three(x4, ws[6], sp, t7);
    }
    lemma_step(x3, ws[5], sp, spaced(ws, 6));
    lemma_step(x2, ws[4], sp, spaced(ws, 5));
    lemma_step(x1, ws[3], sp, spaced(ws, 4));
    lemma_step(x0, ws[2], sp, spaced(ws, 3));
    assert(video_line(c.video) == head + spaced(ws, 2));
    let k = "wfd_video_formats"@ + ": "@;
    lemma_step(k + "40"@ + sp, "00"@, sp, spaced(ws, 2));
    lemma_step(k, "40"@, sp, spaced(ws, 1));
}

pub proof fn lemma_step(x: Seq<char>, w: Seq<char>, sp: Seq<char>, r: Seq<char>)
    ensures
        x + w + sp + r == x + (w + sp + r),
{
    assert(x + w + sp + r =~= x + (w + sp + r));
}

pub proof fn lemma_three(x: Seq<char>, w: Seq<char>, sp: Seq<char>, r: Seq<char>)
    ensures
        x + w + (sp + r) == x + (w + sp + r),
{
    assert(x + w + (sp + r) =~= x + (w + sp + r));
}

proof fn lemma_seven(
    l0: Seq<char>,
    l1: Seq<char>,
    l2: Seq<char>,
    l3: Seq<char>,
    l4: Seq<char>,
    a: Seq<char>,
    b: Seq<char>,
)
    ensures
        l0 + l1 + l2 + l3 + l4 + a + b == (l0 + (l1 + (l2 + (l3 + (l4 + Seq::<char>::empty())))))
            + (a + b),
{
    assert(l4 + Seq::<char>::empty() =~= l4);
    assert(l0 + l1 + l2 + l3 + l4 =~= l0 + (l1 + (l2 + (l3 + l4))));
    let f = l0 + l1 + l2 + l3 + l4;
    assert(f + a + b =~= f + (a + b));
}

proof fn lemma_audio_and_port_lines(c: Capabilities)
    ensures
        "wfd_audio_codecs: LPCM "@ + wide(c.audio.lpcm_modes as nat, 8) + " 00\r\n"@
            == "wfd_audio_codecs"@ + ": "@ + spaced(audio_words(c), 0) + "\r\n"@,
        "wfd_client_rtp_ports: RTP/AVP/UDP;unicast "@ + dec(c.ports.rtp_port as nat)
            + " 0 mode=play\r\n"@ == "wfd_client_rtp_ports"@ + ": "@ + spaced(port_words(c), 0)
            + "\r\n"@,
{
    reveal_with_fuel(spaced, 4);
    reveal_strlit(": ");
    reveal_strlit("\r\n");
    reveal_strlit("wfd_audio_codecs: LPCM ");
    reveal_strlit("wfd_audio_codecs");
    reveal_strlit("LPCM");
    reveal_strlit("00");
    reveal_strlit(" 00\r\n");
    let x = wide(c.audio.lpcm_modes as nat, 8);
    assert("wfd_audio_codecs: LPCM "@ + x + " 00\r\n"@ =~= "wfd_audio_codecs"@ + ": "@ + spaced(
        audio_words(c),
        0,
    ) + "\r\n"@);
    reveal_strlit("wfd_client_rtp_ports: RTP/AVP/UDP;unicast ");
    reveal_strlit("wfd_client_rtp_ports");
    reveal_strlit("RTP/AVP/UDP;unicast");
    reveal_strlit("0");
    reveal_strlit("mode=play");
    reveal_strlit(" 0 mode=play\r\n");
    let y = dec(c.ports.rtp_port as nat);
    assert("wfd_client_rtp_ports: RTP/AVP/UDP;unicast "@ + y + " 0 mode=play\r\n"@
        =~= "wfd_client_rtp_ports"@ + ": "@ + spaced(port_words(c), 0) + "\r\n"@);
}

proof fn lemma_plain_lines()
    ensures
        "wfd_content_protection: none\r\n"@ == "wfd_content_protection"@ + ": "@ + "none"@
            + "\r\n"@,
        "microsoft_max_bitrate: "@ == "microsoft_max_bitrate"@ + ": "@,
        "microsoft_latency_management_capability: supported\r\n"@
            == "microsoft_latency_management_capability"@ + ": "@ + "supported"@ + "\r\n"@,
        "microsoft_format_change_support: supported\r\n"@ == "microsoft_format_change_support"@
            + ": "@ + "supported"@ + "\r\n"@,
{
    reveal_strlit(": ");
    reveal_strlit("\r\n");
    reveal_strlit("none");
    reveal_strlit("supported");
    reveal_strlit("wfd_content_protection: none\r\n");
    reveal_strlit("wfd_content_protection");
    assert("wfd_content_protection: none\r\n"@ =~= "wfd_content_protection"@ + ": "@ + "none"@
        + "\r\n"@);
    reveal_strlit("microsoft_max_bitrate: ");
    reveal_strlit("microsoft_max_bitrate");
    assert("microsoft_max_bitrate: "@ =~= "microsoft_max_bitrate"@ + ": "@);
    reveal_strlit("microsoft_latency_management_capability: supported\r\n");
    reveal_strlit("microsoft_latency_management_capability");
    assert("microsoft_latency_management_capability: supported\r\n"@
        =~= "microsoft_latency_management_capability"@ + ": "@ + "supported"@ + "\r\n"@);
    reveal_strlit("microsoft_format_change_support: supported\r\n");
    reveal_strlit("microsoft_format_change_support");
    assert("microsoft_format_change_support: supported\r\n"@
        =~= "microsoft_format_change_support"@ + ": "@ + "supported"@ + "\r\n"@);
}

/// The capability body is those parameters, one to a line.
proof fn lemma_capabilities_text(c: Capabilities)
    ensures
        capabilities_text(c) == header_lines(fixed_parameters(c) + optional_parameters(c), 0),
{
    let f = fixed_parameters(c);
    let o = optional_parameters(c);
    let nl = "\r\n"@;
    lemma_header_lines_concat(f, o, 0);
    lemma_video_line(c);
    lemma_audio_and_port_lines(c);
    lemma_plain_lines();
    let e = Seq::<char>::empty();
    let l0 = f[0].0 + ": "@ + f[0].1 + nl;
    let l1 = f[1].0 + ": "@ + f[1].1 + nl;
    let l2 = f[2].0 + ": "@ + f[2].1 + nl;
    let l3 = f[3].0 + ": "@ + f[3].1 + nl;
    let l4 = f[4].0 + ": "@ + f[4].1 + nl;
    assert(header_lines(f, 5) == e);
    assert(header_lines(f, 4) == l4 + e);
    assert(header_lines(f, 3) == l3 + (l4 + e));
    assert(header_lines(f, 2) == l2 + (l3 + (l4 + e)));
    assert(header_lines(f, 1) == l1 + (l2 + (l3 + (l4 + e))));
    assert(header_lines(f, 0) == l0 + (l1 + (l2 + (l3 + (l4 + e)))));
    let a = if c.latency_management {
        "microsoft_latency_management_capability: supported\r\n"@
    } else {
        e
    };
    let b = if c.format_change {
        "microsoft_format_change_support: supported\r\n"@
    } else {
        e
    };
    assert(header_lines(o, 0) == a + b) by {
        assert(header_lines(o, o.len() as int) == e);
        assert(e + e =~= e);
        assert(a + e =~= a);
        assert(e + b =~= b);
        assert(b + e =~= b);
        if c.latency_management {
            assert(o[0] == ("microsoft_latency_management_capability"@, "supported"@));
            if c.format_change {
                assert(o[1] == ("microsoft_format_change_support"@, "supported"@));
                assert(header_lines(o, 1) == b + e);
            }
        } else if c.format_change {
            assert(o[0] == ("microsoft_format_change_support"@, "supported"@));
            assert(header_lines(o, 0) == b + e);
        }
    }
    lemma_seven(l0, l1, l2, l3, l4, a, b);
    assert(capabilities_text(c) == l0 + l1 + l2 + l3 + l4 + a + b);
}

/// What our own sink says of itself is read as what it is: its formats, its
/// LPCM modes, its port and its ceiling, and no content protection.
pub proof fn law_our_own_capabilities_read_back(c: Capabilities)
    ensures
        caps_of(capabilities_text(c)) == Ok::<SinkCapsView, CapsErrorView>(
            SinkCapsView {
                cea: c.video.cea,
                vesa: c.video.vesa,
                hh: c.video.hh,
                profile: c.video.profile,
                level: c.video.level,
                lpcm_modes: c.audio.lpcm_modes,
                rtp_port: c.ports.rtp_port,
                max_bitrate_kbps: Some(c.max_bitrate_kbps),
                content_protection: None,
                video_formats: seq![
                    VideoCodecCaps {
                        profile: c.video.profile,
                        level: c.video.level,
                        cea: c.video.cea,
                        vesa: c.video.vesa,
                        hh: c.video.hh,
                    },
                ],
            },
        ),
{
    let ps = fixed_parameters(c) + optional_parameters(c);
    lemma_capabilities_text(c);
    lemma_capability_parameters_are_writable(c);
    law_parameters_read_back(ps);
    lemma_video_words(c);
    lemma_audio_words(c);
    lemma_port_words(c);
    lemma_clean_words(video_words(c));
    lemma_clean_words(audio_words(c));
    lemma_clean_words(port_words(c));
    reveal_strlit("wfd_video_formats");
    reveal_strlit("wfd_audio_codecs");
    reveal_strlit("wfd_content_protection");
    reveal_strlit("wfd_client_rtp_ports");
    reveal_strlit("microsoft_max_bitrate");
    assert("wfd_video_formats"@.len() == 17);
    assert("wfd_audio_codecs"@.len() == 16);
    assert("wfd_content_protection"@.len() == 22);
    assert("wfd_client_rtp_ports"@.len() == 20);
    assert("microsoft_max_bitrate"@.len() == 21);
    let f = fixed_parameters(c);
    assert(ps[0] == f[0] && ps[1] == f[1] && ps[2] == f[2] && ps[3] == f[3] && ps[4] == f[4]);
    reveal_with_fuel(value_from, 6);
    // The video formats.
    let v = spaced(video_words(c), 0);
    lemma_find_from_is(v, ',', 0, v.len() as int);
    assert(rest(v, 0) =~= v);
    assert(pieces(v, ',') =~= seq![v]);
    reveal_with_fuel(codecs_from, 2);
    let codec = codec_of(video_words(c), 2).unwrap();
    assert(codecs_from(pieces(v, ','), 0) == Some(seq![codec] + Seq::<VideoCodecCaps>::empty()));
    assert(seq![codec] + Seq::<VideoCodecCaps>::empty() =~= seq![codec]);
    // The ceiling and the protection.
    let d = dec(c.max_bitrate_kbps as nat);
    lemma_dec_is_clean(c.max_bitrate_kbps as nat);
    lemma_trim_of_tight(d);
    law_parse_dec_of_dec(c.max_bitrate_kbps as nat, u32::MAX as nat);
    reveal_strlit("none");
    lemma_trim_of_tight("none"@);
}

} // verus!
