//! The tables of modes, what a display offers from them, and what is chosen.
use vstd::prelude::*;
use crate::miracast::rtsp::VideoMode;
use crate::miracast::source::caps::{
    acceptable, affordable, better, bit_from, carried_by, carried_from, cea, codecs, cost, encodable,
    has_bit, hh_sizes, level_for, mode_in, modes_from, offer_of, offered_modes, offers, offers_from,
    paired, place, profile_for, proposals, rank, ranked, vesa_sizes, Offer, SinkCapsView,
    VideoCodecCaps, VideoTable,
};
use crate::miracast::source::caps_laws::{law_the_proposals_of_a_mode, within};
use crate::proto::Mode;

verus! {

// ---- the tables ----

/// Whether a mode is there and is this one.
pub open spec fn is_mode(m: Option<VideoMode>, width: u32, height: u32, fps: u32) -> bool {
    m == Some(VideoMode { width, height, fps })
}

/// The CEA table, entry by entry: each mode stands at its own index and nowhere
/// else, and the interlaced ones stand for nothing.
pub proof fn law_the_cea_table(bit: u32)
    ensures
        is_mode(cea(bit), 640, 480, 60) <==> bit == 0,
        is_mode(cea(bit), 720, 480, 60) <==> bit == 1,
        is_mode(cea(bit), 720, 576, 50) <==> bit == 3,
        is_mode(cea(bit), 1280, 720, 30) <==> bit == 5,
        is_mode(cea(bit), 1280, 720, 60) <==> bit == 6,
        is_mode(cea(bit), 1920, 1080, 30) <==> bit == 7,
        is_mode(cea(bit), 1920, 1080, 60) <==> bit == 8,
        is_mode(cea(bit), 1280, 720, 25) <==> bit == 10,
        is_mode(cea(bit), 1280, 720, 50) <==> bit == 11,
        is_mode(cea(bit), 1920, 1080, 25) <==> bit == 12,
        is_mode(cea(bit), 1920, 1080, 50) <==> bit == 13,
        is_mode(cea(bit), 1280, 720, 24) <==> bit == 15,
        is_mode(cea(bit), 1920, 1080, 24) <==> bit == 16,
        cea(bit) is None <==> bit == 2 || bit == 4 || bit == 9 || bit == 14 || bit > 16,
{
}

/// The VESA table, entry by entry.
pub proof fn law_the_vesa_table(bit: u32)
    ensures
        is_mode(paired(vesa_sizes(), bit), 800, 600, 30) <==> bit == 0,
        is_mode(paired(vesa_sizes(), bit), 800, 600, 60) <==> bit == 1,
        is_mode(paired(vesa_sizes(), bit), 1024, 768, 30) <==> bit == 2,
        is_mode(paired(vesa_sizes(), bit), 1024, 768, 60) <==> bit == 3,
        is_mode(paired(vesa_sizes(), bit), 1152, 864, 30) <==> bit == 4,
        is_mode(paired(vesa_sizes(), bit), 1152, 864, 60) <==> bit == 5,
        is_mode(paired(vesa_sizes(), bit), 1280, 768, 30) <==> bit == 6,
        is_mode(paired(vesa_sizes(), bit), 1280, 768, 60) <==> bit == 7,
        is_mode(paired(vesa_sizes(), bit), 1280, 800, 30) <==> bit == 8,
        is_mode(paired(vesa_sizes(), bit), 1280, 800, 60) <==> bit == 9,
        is_mode(paired(vesa_sizes(), bit), 1360, 768, 30) <==> bit == 10,
        is_mode(paired(vesa_sizes(), bit), 1360, 768, 60) <==> bit == 11,
        is_mode(paired(vesa_sizes(), bit), 1366, 768, 30) <==> bit == 12,
        is_mode(paired(vesa_sizes(), bit), 1366, 768, 60) <==> bit == 13,
        is_mode(paired(vesa_sizes(), bit), 1280, 1024, 30) <==> bit == 14,
        is_mode(paired(vesa_sizes(), bit), 1280, 1024, 60) <==> bit == 15,
        is_mode(paired(vesa_sizes(), bit), 1400, 1050, 30) <==> bit == 16,
        is_mode(paired(vesa_sizes(), bit), 1400, 1050, 60) <==> bit == 17,
        is_mode(paired(vesa_sizes(), bit), 1440, 900, 30) <==> bit == 18,
        is_mode(paired(vesa_sizes(), bit), 1440, 900, 60) <==> bit == 19,
        is_mode(paired(vesa_sizes(), bit), 1600, 900, 30) <==> bit == 20,
        is_mode(paired(vesa_sizes(), bit), 1600, 900, 60) <==> bit == 21,
        is_mode(paired(vesa_sizes(), bit), 1600, 1200, 30) <==> bit == 22,
        is_mode(paired(vesa_sizes(), bit), 1600, 1200, 60) <==> bit == 23,
        is_mode(paired(vesa_sizes(), bit), 1680, 1050, 30) <==> bit == 24,
        is_mode(paired(vesa_sizes(), bit), 1680, 1050, 60) <==> bit == 25,
        is_mode(paired(vesa_sizes(), bit), 1920, 1200, 30) <==> bit == 26,
        is_mode(paired(vesa_sizes(), bit), 1920, 1200, 60) <==> bit == 27,
        paired(vesa_sizes(), bit) is None <==> bit >= 28,
{
}

/// The handheld table, entry by entry.
pub proof fn law_the_handheld_table(bit: u32)
    ensures
        is_mode(paired(hh_sizes(), bit), 800, 480, 30) <==> bit == 0,
        is_mode(paired(hh_sizes(), bit), 800, 480, 60) <==> bit == 1,
        is_mode(paired(hh_sizes(), bit), 854, 480, 30) <==> bit == 2,
        is_mode(paired(hh_sizes(), bit), 854, 480, 60) <==> bit == 3,
        is_mode(paired(hh_sizes(), bit), 864, 480, 30) <==> bit == 4,
        is_mode(paired(hh_sizes(), bit), 864, 480, 60) <==> bit == 5,
        is_mode(paired(hh_sizes(), bit), 640, 360, 30) <==> bit == 6,
        is_mode(paired(hh_sizes(), bit), 640, 360, 60) <==> bit == 7,
        is_mode(paired(hh_sizes(), bit), 960, 540, 30) <==> bit == 8,
        is_mode(paired(hh_sizes(), bit), 960, 540, 60) <==> bit == 9,
        is_mode(paired(hh_sizes(), bit), 848, 480, 30) <==> bit == 10,
        is_mode(paired(hh_sizes(), bit), 848, 480, 60) <==> bit == 11,
        paired(hh_sizes(), bit) is None <==> bit >= 12,
{
}

// ---- what a display offers ----

/// The mode behind an index of a table.
pub open spec fn entry(table: VideoTable, bit: u32) -> Option<VideoMode> {
    match table {
        VideoTable::Cea => cea(bit),
        VideoTable::Vesa => paired(vesa_sizes(), bit),
        VideoTable::Hh => paired(hh_sizes(), bit),
    }
}

/// The bitmap that a codec has for a table.
pub open spec fn bitmap(c: VideoCodecCaps, table: VideoTable) -> u32 {
    match table {
        VideoTable::Cea => c.cea,
        VideoTable::Vesa => c.vesa,
        VideoTable::Hh => c.hh,
    }
}

/// Whether a codec has the bit of an index set, and a mode stands there.
pub open spec fn has_entry(c: VideoCodecCaps, table: VideoTable, bit: u32, m: VideoMode) -> bool {
    bit < 32 && bitmap(c, table) & (1u32 << bit) != 0 && entry(table, bit) == Some(m)
}

/// Whether a codec has a mode at all.
pub open spec fn has_mode(c: VideoCodecCaps, m: VideoMode) -> bool {
    exists|table: VideoTable, bit: u32| #[trigger] has_entry(c, table, bit, m)
}

proof fn lemma_powers(a: u32, b: u32)
    requires
        a < b < 32,
    ensures
        1u32 << a < 1u32 << b,
{
    assert(1u32 << a < 1u32 << b) by (bit_vector)
        requires
            a < b < 32,
    ;
}

proof fn lemma_offers_from(table: VideoTable, mask: u32, bit: u32)
    requires
        bit <= 32,
    ensures
        ({
            let os = offers_from(table, mask, bit);
            &&& forall|i: int|
                0 <= i < os.len() ==> exists|b: u32|
                    bit <= b < 32 && mask & (1u32 << b) != 0 && entry(table, b) == Some(os[i].2)
                        && (#[trigger] os[i]) == (table, #[trigger] (1u32 << b), os[i].2)
            &&& forall|b: u32|
                bit <= b < 32 && mask & (#[trigger] (1u32 << b)) != 0 && entry(table, b) is Some
                    ==> os.contains((table, 1u32 << b, entry(table, b)->0))
            &&& forall|i: int, j: int|
                0 <= i < j < os.len() ==> (#[trigger] os[i]).1 < (#[trigger] os[j]).1
        }),
    decreases 32 - bit,
{
    if bit < 32 {
        let next = (bit + 1) as u32;
        lemma_offers_from(table, mask, next);
        let os = offers_from(table, mask, bit);
        let rest = offers_from(table, mask, next);
        assert(mode_in(table, bit) == entry(table, bit));
        if entry(table, bit) is Some && mask & (1u32 << bit) != 0 {
            let first = (table, 1u32 << bit, entry(table, bit)->0);
            assert(os == seq![first] + rest);
            assert(os[0] == first);
            assert forall|i: int| 0 <= i < os.len() implies exists|b: u32|
                bit <= b < 32 && mask & (1u32 << b) != 0 && entry(table, b) == Some(os[i].2) && (
                #[trigger] os[i]) == (table, #[trigger] (1u32 << b), os[i].2) by {
                if i == 0 {
                    assert(os[0] == (table, 1u32 << bit, os[0].2));
                } else {
                    assert(os[i] == rest[i - 1]);
                }
            }
            assert forall|b: u32|
                bit <= b < 32 && mask & (#[trigger] (1u32 << b)) != 0 && entry(
                    table,
                    b,
                ) is Some implies os.contains((table, 1u32 << b, entry(table, b)->0)) by {
                if b > bit {
                    let o = (table, 1u32 << b, entry(table, b)->0);
                    assert(rest.contains(o));
                    let k = choose|k: int| 0 <= k < rest.len() && rest[k] == o;
                    assert(os[k + 1] == o);
                }
            }
            assert forall|i: int, j: int| 0 <= i < j < os.len() implies (#[trigger] os[i]).1 < (
            #[trigger] os[j]).1 by {
                assert(os[j] == rest[j - 1]);
                if i == 0 {
                    let b = choose|b: u32|
                        next <= b < 32 && mask & (1u32 << b) != 0 && entry(table, b) == Some(
                            rest[j - 1].2,
                        ) && rest[j - 1] == (table, #[trigger] (1u32 << b), rest[j - 1].2);
                    lemma_powers(bit, b);
                } else {
                    assert(os[i] == rest[i - 1]);
                }
            }
        }
    }
}

/// Where a table stands among the three.
pub open spec fn turn(table: VideoTable) -> int {
    match table {
        VideoTable::Cea => 0,
        VideoTable::Vesa => 1,
        VideoTable::Hh => 2,
    }
}

/// A codec offers exactly the modes whose bits are set, each under its own bit:
/// those of the CEA table first, the VESA ones next and the handheld ones last,
/// and in each table from the lowest bit to the highest.
pub proof fn law_what_a_codec_offers(c: VideoCodecCaps)
    ensures
        ({
            let os = offers(c);
            &&& forall|i: int|
                0 <= i < os.len() ==> exists|b: u32|
                    has_entry(c, os[i].0, b, os[i].2) && (#[trigger] os[i]) == (
                        os[i].0,
                        #[trigger] (1u32 << b),
                        os[i].2,
                    )
            &&& forall|table: VideoTable, b: u32, m: VideoMode| #[trigger]
                has_entry(c, table, b, m) ==> os.contains((table, 1u32 << b, m))
            &&& forall|i: int, j: int|
                0 <= i < j < os.len() ==> turn((#[trigger] os[i]).0) < turn((#[trigger] os[j]).0)
                    || (os[i].0 == os[j].0 && os[i].1 < os[j].1)
        }),
{
    let os = offers(c);
    let a = offers_from(VideoTable::Cea, c.cea, 0);
    let v = offers_from(VideoTable::Vesa, c.vesa, 0);
    let h = offers_from(VideoTable::Hh, c.hh, 0);
    lemma_offers_from(VideoTable::Cea, c.cea, 0);
    lemma_offers_from(VideoTable::Vesa, c.vesa, 0);
    lemma_offers_from(VideoTable::Hh, c.hh, 0);
    let (n, k) = (a.len() as int, (a.len() + v.len()) as int);
    assert forall|i: int| 0 <= i < os.len() implies exists|b: u32|
        has_entry(c, os[i].0, b, os[i].2) && (#[trigger] os[i]) == (
            os[i].0,
            #[trigger] (1u32 << b),
            os[i].2,
        ) by {
        let (part, at, table) = if i < n {
            (a, i, VideoTable::Cea)
        } else if i < k {
            (v, i - n, VideoTable::Vesa)
        } else {
            (h, i - k, VideoTable::Hh)
        };
        assert(os[i] == part[at]);
        let b = choose|b: u32|
            0 <= b < 32 && bitmap(c, table) & (1u32 << b) != 0 && entry(table, b) == Some(
                part[at].2,
            ) && part[at] == (table, #[trigger] (1u32 << b), part[at].2);
        assert(has_entry(c, os[i].0, b, os[i].2));
    }
    assert forall|table: VideoTable, b: u32, m: VideoMode| #[trigger]
        has_entry(c, table, b, m) implies os.contains((table, 1u32 << b, m)) by {
        let o = (table, 1u32 << b, m);
        match table {
            VideoTable::Cea => {
                let j = choose|j: int| 0 <= j < a.len() && a[j] == o;
                assert(os[j] == o);
            },
            VideoTable::Vesa => {
                let j = choose|j: int| 0 <= j < v.len() && v[j] == o;
                assert(os[n + j] == o);
            },
            VideoTable::Hh => {
                let j = choose|j: int| 0 <= j < h.len() && h[j] == o;
                assert(os[k + j] == o);
            },
        }
    }
    assert forall|i: int, j: int| 0 <= i < j < os.len() implies turn((#[trigger] os[i]).0) < turn(
        (#[trigger] os[j]).0,
    ) || (os[i].0 == os[j].0 && os[i].1 < os[j].1) by {
        let (p, pi) = if i < n {
            (a, i)
        } else if i < k {
            (v, i - n)
        } else {
            (h, i - k)
        };
        let (q, qj) = if j < n {
            (a, j)
        } else if j < k {
            (v, j - n)
        } else {
            (h, j - k)
        };
        assert(os[i] == p[pi]);
        assert(os[j] == q[qj]);
    }
}

/// Whether a display has a mode: one of the codecs on record if there are
/// several, else the codec that its own fields describe.
pub open spec fn display_has(c: SinkCapsView, m: VideoMode) -> bool {
    if c.video_formats.len() <= 1 {
        has_mode(
            VideoCodecCaps {
                profile: c.profile,
                level: c.level,
                cea: c.cea,
                vesa: c.vesa,
                hh: c.hh,
            },
            m,
        )
    } else {
        exists|i: int| 0 <= i < c.video_formats.len() && has_mode(#[trigger] c.video_formats[i], m)
    }
}

proof fn lemma_modes_of(c: VideoCodecCaps, m: VideoMode)
    ensures
        offered_modes(offers(c)).contains(m) <==> has_mode(c, m),
{
    law_what_a_codec_offers(c);
    let os = offers(c);
    let ms = offered_modes(os);
    if ms.contains(m) {
        let i = choose|i: int| 0 <= i < ms.len() && ms[i] == m;
        let b = choose|b: u32|
            has_entry(c, os[i].0, b, os[i].2) && os[i] == (os[i].0, #[trigger] (1u32 << b), os[i].2);
        assert(has_entry(c, os[i].0, b, m));
    }
    if has_mode(c, m) {
        let (table, b) = choose|table: VideoTable, b: u32| #[trigger] has_entry(c, table, b, m);
        let o = (table, 1u32 << b, m);
        let k = choose|k: int| 0 <= k < os.len() && os[k] == o;
        assert(ms[k] == m);
    }
}

proof fn lemma_modes_from(cs: Seq<VideoCodecCaps>, i: int, m: VideoMode)
    requires
        0 <= i <= cs.len(),
    ensures
        modes_from(cs, i).contains(m) <==> exists|k: int|
            i <= k < cs.len() && has_mode(#[trigger] cs[k], m),
    decreases cs.len() - i,
{
    if i < cs.len() {
        lemma_modes_from(cs, i + 1, m);
        lemma_modes_of(cs[i], m);
        let here = offered_modes(offers(cs[i]));
        let rest = modes_from(cs, i + 1);
        let all = modes_from(cs, i);
        assert(all == here + rest);
        if here.contains(m) {
            let k = choose|k: int| 0 <= k < here.len() && here[k] == m;
            assert(all[k] == m);
        }
        if rest.contains(m) {
            let k = choose|k: int| 0 <= k < rest.len() && rest[k] == m;
            assert(all[here.len() + k] == m);
        }
        if all.contains(m) {
            let k = choose|k: int| 0 <= k < all.len() && all[k] == m;
            if k < here.len() {
                assert(here[k] == m);
            } else {
                assert(rest[k - here.len()] == m);
            }
        }
    }
}

/// The modes of a display are those whose bits it has set.
pub proof fn law_the_modes_of_a_display(c: SinkCapsView, m: VideoMode)
    ensures
        modes_from(codecs(c), 0).contains(m) <==> display_has(c, m),
{
    let cs = codecs(c);
    lemma_modes_from(cs, 0, m);
    if display_has(c, m) && c.video_formats.len() <= 1 {
        assert(has_mode(cs[0], m));
    }
}

/// A display with a single bit of the CEA table has the one mode behind it, or
/// none if that is interlaced: with bit 8 alone, 1080 lines at 60 frames and
/// nothing else.
pub proof fn law_a_single_bit(c: SinkCapsView, bit: u32)
    requires
        c.video_formats.len() <= 1,
        bit < 32,
        c.cea == 1u32 << bit,
        c.vesa == 0,
        c.hh == 0,
    ensures
        ({
            let ms = modes_from(codecs(c), 0);
            &&& bit == 8 ==> ms == seq![VideoMode { width: 1920, height: 1080, fps: 60 }]
            &&& bit == 13 ==> ms == seq![VideoMode { width: 1920, height: 1080, fps: 50 }]
            &&& bit == 0 ==> ms == seq![VideoMode { width: 640, height: 480, fps: 60 }]
            &&& cea(bit) is Some ==> ms == seq![cea(bit)->0]
            &&& bit == 2 || bit == 4 || bit == 9 || bit == 14 || bit > 16 ==> ms.len() == 0
        }),
{
    let codec = codecs(c)[0];
    assert(codecs(c) =~= seq![codec]);
    let os = offers(codec);
    law_what_a_codec_offers(codec);
    law_the_cea_table(bit);
    assert forall|table: VideoTable, b: u32, m: VideoMode| #[trigger]
        has_entry(codec, table, b, m) implies table == VideoTable::Cea && b == bit by {
        assert(0u32 & (1u32 << b) == 0) by (bit_vector);
        assert((1u32 << bit) & (1u32 << b) != 0 ==> b == bit) by (bit_vector)
            requires
                b < 32,
                bit < 32,
        ;
    }
    assert((1u32 << bit) & (1u32 << bit) != 0) by (bit_vector)
        requires
            bit < 32,
    ;
    assert forall|i: int| 0 <= i < os.len() implies cea(bit) is Some && #[trigger] os[i] == (
        VideoTable::Cea,
        1u32 << bit,
        cea(bit)->0,
    ) by {
        let b = choose|b: u32|
            has_entry(codec, os[i].0, b, os[i].2) && os[i] == (
                os[i].0,
                #[trigger] (1u32 << b),
                os[i].2,
            );
        assert(has_entry(codec, os[i].0, b, os[i].2));
    }
    assert(os.len() <= 1) by {
        if os.len() > 1 {
            assert(os[0] == os[1]);
        }
    }
    if cea(bit) is Some {
        assert(has_entry(codec, VideoTable::Cea, bit, cea(bit)->0));
        assert(os.len() == 1);
        assert(offered_modes(os) =~= seq![cea(bit)->0]);
    } else {
        if os.len() > 0 {
            assert(os[0] == os[0]);
        }
        assert(os.len() == 0);
        assert(offered_modes(os) =~= Seq::empty());
    }
    assert(modes_from(codecs(c), 1) =~= Seq::empty());
    assert(modes_from(codecs(c), 0) =~= offered_modes(os));
}

// ---- what can be carried ----

/// The least level that carries a mode, by the macroblocks it has to code each
/// second: 3.1 up to 108000, 3.2 up to 216000, 4 up to 245760, 4.2 up to 522240.
pub proof fn law_the_levels(m: VideoMode)
    ensures
        ({
            let columns = (m.width + 15) / 16;
            let rows = (m.height + 15) / 16;
            let rate = columns * rows * m.fps;
            &&& level_for(m) == Some(0x01u8) <==> rate <= 108_000
            &&& level_for(m) == Some(0x02u8) <==> 108_000 < rate <= 216_000
            &&& level_for(m) == Some(0x04u8) <==> 216_000 < rate <= 245_760
            &&& level_for(m) == Some(0x10u8) <==> 245_760 < rate <= 522_240
            &&& level_for(m) is None <==> rate > 522_240
        }),
{
    let columns = (m.width + 15) / 16;
    let rows = (m.height + 15) / 16;
    assert(columns * rows * m.fps >= 0) by (nonlinear_arith)
        requires
            columns >= 0,
            rows >= 0,
            m.fps >= 0,
    ;
}

/// Whether a codec carries a mode: it has constrained baseline or constrained
/// high, its highest level is not below the one needed, and it has the mode.
pub open spec fn can_carry(c: VideoCodecCaps, m: VideoMode, level: u8) -> bool {
    &&& c.profile & 0x01 != 0 || c.profile & 0x02 != 0
    &&& c.level & 0x1f >= level
    &&& has_mode(c, m)
}

proof fn lemma_rank(have: u8, need: u8)
    requires
        need == 0x01 || need == 0x02 || need == 0x04 || need == 0x10,
    ensures
        rank(have) >= rank(need) <==> have & 0x1f >= need,
{
    assert((have & 0x10 != 0 ==> have & 0x1f >= 0x10) && (have & 0x10 == 0 ==> have & 0x1f < 0x10)
        && (have & 0x10 == 0 && have & 0x08 != 0 ==> have & 0x1f >= 0x08) && (have & 0x10 == 0
        && have & 0x08 == 0 ==> have & 0x1f < 0x08) && (have & 0x10 == 0 && have & 0x08 == 0 && have
        & 0x04 != 0 ==> have & 0x1f >= 0x04) && (have & 0x10 == 0 && have & 0x08 == 0 && have & 0x04
        == 0 ==> have & 0x1f < 0x04) && (have & 0x10 == 0 && have & 0x08 == 0 && have & 0x04 == 0
        && have & 0x02 != 0 ==> have & 0x1f >= 0x02) && (have & 0x10 == 0 && have & 0x08 == 0
        && have & 0x04 == 0 && have & 0x02 == 0 ==> have & 0x1f < 0x02) && (have & 0x10 == 0 && have
        & 0x08 == 0 && have & 0x04 == 0 && have & 0x02 == 0 && have & 0x01 != 0 ==> have & 0x1f
        >= 0x01) && (have & 0x10 == 0 && have & 0x08 == 0 && have & 0x04 == 0 && have & 0x02 == 0
        && have & 0x01 == 0 ==> have & 0x1f < 0x01)) by (bit_vector);
    assert(0x01u8 & 0x10 == 0 && 0x01u8 & 0x08 == 0 && 0x01u8 & 0x04 == 0 && 0x01u8 & 0x02 == 0
        && 0x01u8 & 0x01 != 0 && 0x02u8 & 0x10 == 0 && 0x02u8 & 0x08 == 0 && 0x02u8 & 0x04 == 0
        && 0x02u8 & 0x02 != 0 && 0x04u8 & 0x10 == 0 && 0x04u8 & 0x08 == 0 && 0x04u8 & 0x04 != 0
        && 0x10u8 & 0x10 != 0) by (bit_vector);
}

proof fn lemma_offer_of(os: Seq<Offer>, wanted: VideoMode, i: int)
    requires
        0 <= i <= os.len(),
    ensures
        match offer_of(os, wanted, i) {
            Some(o) => o.2 == wanted && exists|k: int|
                i <= k < os.len() && os[k] == o && forall|j: int|
                    i <= j < k ==> (#[trigger] os[j]).2 != wanted,
            None => forall|k: int| i <= k < os.len() ==> (#[trigger] os[k]).2 != wanted,
        },
    decreases os.len() - i,
{
    if i < os.len() {
        if os[i].2 != wanted {
            lemma_offer_of(os, wanted, i + 1);
            if let Some(o) = offer_of(os, wanted, i + 1) {
                let k = choose|k: int|
                    i + 1 <= k < os.len() && os[k] == o && forall|j: int|
                        i + 1 <= j < k ==> (#[trigger] os[j]).2 != wanted;
                assert(os[k] == o);
            }
        } else {
            assert(os[i] == offer_of(os, wanted, i)->0);
        }
    }
}

proof fn lemma_carried_by(c: VideoCodecCaps, wanted: VideoMode, level: u8)
    requires
        level == 0x01 || level == 0x02 || level == 0x04 || level == 0x10,
    ensures
        carried_by(c, wanted, level) is Some <==> can_carry(c, wanted, level),
        carried_by(c, wanted, level) matches Some(sel) ==> {
            &&& sel.mode == wanted
            &&& sel.level == level
            &&& sel.profile == if c.profile & 0x01 != 0 {
                0x01u8
            } else {
                0x02
            }
            &&& exists|b: u32|
                has_entry(c, sel.table, b, wanted) && sel.bit == #[trigger] (1u32 << b)
            &&& forall|table: VideoTable, b: u32| #[trigger]
                has_entry(c, table, b, wanted) ==> turn(sel.table) < turn(table) || (sel.table
                    == table && sel.bit <= 1u32 << b)
        },
{
    lemma_rank(c.level, level);
    let os = offers(c);
    law_what_a_codec_offers(c);
    lemma_modes_of(c, wanted);
    lemma_offer_of(os, wanted, 0);
    let ms = offered_modes(os);
    match offer_of(os, wanted, 0) {
        Some(o) => {
            let k = choose|k: int|
                0 <= k < os.len() && os[k] == o && forall|j: int|
                    0 <= j < k ==> (#[trigger] os[j]).2 != wanted;
            assert(ms[k] == wanted);
            let b = choose|b: u32|
                has_entry(c, os[k].0, b, os[k].2) && os[k] == (
                    os[k].0,
                    #[trigger] (1u32 << b),
                    os[k].2,
                );
            assert(has_entry(c, o.0, b, wanted) && o.1 == 1u32 << b);
            assert forall|table: VideoTable, b2: u32| #[trigger]
                has_entry(c, table, b2, wanted) implies turn(o.0) < turn(table) || (o.0 == table
                && o.1 <= 1u32 << b2) by {
                let p = (table, 1u32 << b2, wanted);
                let j = choose|j: int| 0 <= j < os.len() && os[j] == p;
                assert(os[j] == p);
                assert(os[j].2 == wanted);
                if j < k {
                    assert(false);
                }
                assert(os[k] == o);
            }
        },
        None => {
            if ms.contains(wanted) {
                let k = choose|k: int| 0 <= k < ms.len() && ms[k] == wanted;
                assert(os[k].2 == wanted);
            }
        },
    }
}

proof fn lemma_carried_from(cs: Seq<VideoCodecCaps>, wanted: VideoMode, level: u8, i: int)
    requires
        0 <= i <= cs.len(),
    ensures
        match carried_from(cs, wanted, level, i) {
            Some(sel) => exists|k: int|
                i <= k < cs.len() && #[trigger] carried_by(cs[k], wanted, level) == Some(sel)
                    && forall|j: int|
                    i <= j < k ==> #[trigger] carried_by(cs[j], wanted, level) is None,
            None => forall|k: int|
                i <= k < cs.len() ==> #[trigger] carried_by(cs[k], wanted, level) is None,
        },
    decreases cs.len() - i,
{
    if i < cs.len() && carried_by(cs[i], wanted, level) is None {
        lemma_carried_from(cs, wanted, level, i + 1);
        if let Some(sel) = carried_from(cs, wanted, level, i + 1) {
            let k = choose|k: int|
                i + 1 <= k < cs.len() && #[trigger] carried_by(cs[k], wanted, level) == Some(sel)
                    && forall|j: int|
                    i + 1 <= j < k ==> #[trigger] carried_by(cs[j], wanted, level) is None;
            assert(carried_by(cs[k], wanted, level) == Some(sel));
        }
    }
}

/// A display can show a mode exactly if one of its codecs carries it, at the
/// least level that does. The first such codec is used, constrained baseline if
/// it has that, and the mode is named by the first bit that stands for it.
pub proof fn law_how_a_mode_is_carried(sink: SinkCapsView, wanted: VideoMode)
    ensures
        level_for(wanted) is None ==> acceptable(sink, wanted) is None,
        level_for(wanted) matches Some(level) ==> match acceptable(sink, wanted) {
            Some(sel) => exists|k: int|
                0 <= k < codecs(sink).len() && #[trigger] can_carry(codecs(sink)[k], wanted, level)
                    && (forall|j: int|
                    0 <= j < k ==> !#[trigger] can_carry(codecs(sink)[j], wanted, level)) && {
                    let c = codecs(sink)[k];
                    &&& sel.mode == wanted
                    &&& sel.level == level
                    &&& sel.profile == if c.profile & 0x01 != 0 {
                        0x01u8
                    } else {
                        0x02
                    }
                    &&& exists|b: u32|
                        has_entry(c, sel.table, b, wanted) && sel.bit == #[trigger] (1u32 << b)
                    &&& forall|table: VideoTable, b: u32| #[trigger]
                        has_entry(c, table, b, wanted) ==> turn(sel.table) < turn(table) || (
                        sel.table == table && sel.bit <= 1u32 << b)
                },
            None => forall|k: int|
                0 <= k < codecs(sink).len() ==> !#[trigger] can_carry(
                    codecs(sink)[k],
                    wanted,
                    level,
                ),
        },
{
    if let Some(level) = level_for(wanted) {
        let cs = codecs(sink);
        lemma_carried_from(cs, wanted, level, 0);
        assert forall|k: int| 0 <= k < cs.len() implies #[trigger] can_carry(cs[k], wanted, level)
            == carried_by(cs[k], wanted, level) is Some by {
            lemma_carried_by(cs[k], wanted, level);
        }
        if let Some(sel) = acceptable(sink, wanted) {
            let k = choose|k: int|
                0 <= k < cs.len() && #[trigger] carried_by(cs[k], wanted, level) == Some(sel)
                    && forall|j: int|
                    0 <= j < k ==> #[trigger] carried_by(cs[j], wanted, level) is None;
            lemma_carried_by(cs[k], wanted, level);
            assert(can_carry(cs[k], wanted, level));
            assert forall|j: int| 0 <= j < k implies !#[trigger] can_carry(
                cs[j],
                wanted,
                level,
            ) by {
                assert(carried_by(cs[j], wanted, level) is None);
            }
        }
    }
}

/// The bit of a mode is that of its own index of the CEA table, and a mode that
/// is not in the table has none.
pub proof fn law_the_bits_of_modes(m: VideoMode, bit: u32)
    requires
        bit < 32,
    ensures
        cea(bit) == Some(m) ==> bit_from(m, 0) == Some(1u32 << bit),
        (forall|b: u32| b < 32 ==> #[trigger] cea(b) != Some(m)) ==> bit_from(m, 0) is None,
{
    lemma_bit_from(m, bit, 0);
}

proof fn lemma_bit_from(m: VideoMode, bit: u32, b: u32)
    requires
        b <= 32,
        bit < 32,
    ensures
        cea(bit) == Some(m) && b <= bit ==> bit_from(m, b) == Some(1u32 << bit),
        (forall|k: u32| k < 32 ==> #[trigger] cea(k) != Some(m)) ==> bit_from(m, b) is None,
    decreases 32 - b,
{
    if b < 32 {
        lemma_bit_from(m, bit, (b + 1) as u32);
    }
}

// ---- what we propose ----

proof fn lemma_place_is(mode: Mode, s: Seq<VideoMode>, m: VideoMode, k: int)
    requires
        0 <= k <= s.len(),
        forall|j: int| 0 <= j < k ==> !better(mode, m, #[trigger] s[j]),
        k < s.len() ==> better(mode, m, s[k]),
    ensures
        place(mode, s, m, 0) == k,
{
    lemma_place_from(mode, s, m, k, 0);
}

proof fn lemma_place_from(mode: Mode, s: Seq<VideoMode>, m: VideoMode, k: int, j: int)
    requires
        0 <= j <= k <= s.len(),
        forall|i: int| 0 <= i < k ==> !better(mode, m, #[trigger] s[i]),
        k < s.len() ==> better(mode, m, s[k]),
    ensures
        place(mode, s, m, j) == k,
    decreases k - j,
{
    if j < k {
        lemma_place_from(mode, s, m, k, j + 1);
    }
}

#[verifier::spinoff_prover]
#[verifier::rlimit(60)]
proof fn lemma_quality_order()
    ensures
        ranked(Mode::Quality, encodable(), 13) == quality_order(),
{
    let mode = Mode::Quality;
    let e = encodable();
    let s0 = ranked(mode, e, 0);
    lemma_place_is(mode, s0, e[0], 0);
    let s1 = ranked(mode, e, 1);
    assert(s1 =~= seq![
        e[0],
    ]);
    lemma_place_is(mode, s1, e[1], 1);
    let s2 = ranked(mode, e, 2);
    assert(s2 =~= seq![
        e[0],
        e[1],
    ]);
    lemma_place_is(mode, s2, e[2], 2);
    let s3 = ranked(mode, e, 3);
    assert(s3 =~= seq![
        e[0],
        e[1],
        e[2],
    ]);
    lemma_place_is(mode, s3, e[3], 3);
    let s4 = ranked(mode, e, 4);
    assert(s4 =~= seq![
        e[0],
        e[1],
        e[2],
        e[3],
    ]);
    lemma_place_is(mode, s4, e[4], 2);
    let s5 = ranked(mode, e, 5);
    assert(s5 =~= seq![
        e[0],
        e[1],
        e[4],
        e[2],
        e[3],
    ]);
    lemma_place_is(mode, s5, e[5], 3);
    let s6 = ranked(mode, e, 6);
    assert(s6 =~= seq![
        e[0],
        e[1],
        e[4],
        e[5],
        e[2],
        e[3],
    ]);
    lemma_place_is(mode, s6, e[6], 3);
    let s7 = ranked(mode, e, 7);
    assert(s7 =~= seq![
        e[0],
        e[1],
        e[4],
        e[6],
        e[5],
        e[2],
        e[3],
    ]);
    lemma_place_is(mode, s7, e[7], 5);
    let s8 = ranked(mode, e, 8);
    assert(s8 =~= seq![
        e[0],
        e[1],
        e[4],
        e[6],
        e[5],
        e[7],
        e[2],
        e[3],
    ]);
    lemma_place_is(mode, s8, e[8], 8);
    let s9 = ranked(mode, e, 9);
    assert(s9 =~= seq![
        e[0],
        e[1],
        e[4],
        e[6],
        e[5],
        e[7],
        e[2],
        e[3],
        e[8],
    ]);
    lemma_place_is(mode, s9, e[9], 9);
    let s10 = ranked(mode, e, 10);
    assert(s10 =~= seq![
        e[0],
        e[1],
        e[4],
        e[6],
        e[5],
        e[7],
        e[2],
        e[3],
        e[8],
        e[9],
    ]);
    lemma_place_is(mode, s10, e[10], 10);
    let s11 = ranked(mode, e, 11);
    assert(s11 =~= seq![
        e[0],
        e[1],
        e[4],
        e[6],
        e[5],
        e[7],
        e[2],
        e[3],
        e[8],
        e[9],
        e[10],
    ]);
    lemma_place_is(mode, s11, e[11], 11);
    let s12 = ranked(mode, e, 12);
    assert(s12 =~= seq![
        e[0],
        e[1],
        e[4],
        e[6],
        e[5],
        e[7],
        e[2],
        e[3],
        e[8],
        e[9],
        e[10],
        e[11],
    ]);
    lemma_place_is(mode, s12, e[12], 12);
    let s13 = ranked(mode, e, 13);
    assert(s13 =~= seq![
        e[0],
        e[1],
        e[4],
        e[6],
        e[5],
        e[7],
        e[2],
        e[3],
        e[8],
        e[9],
        e[10],
        e[11],
        e[12],
    ]);
}

#[verifier::spinoff_prover]
#[verifier::rlimit(60)]
proof fn lemma_game_order()
    ensures
        ranked(Mode::Game, encodable(), 13) == game_order(),
{
    let mode = Mode::Game;
    let e = encodable();
    let s0 = ranked(mode, e, 0);
    lemma_place_is(mode, s0, e[0], 0);
    let s1 = ranked(mode, e, 1);
    assert(s1 =~= seq![
        e[0],
    ]);
    lemma_place_is(mode, s1, e[1], 1);
    let s2 = ranked(mode, e, 2);
    assert(s2 =~= seq![
        e[0],
        e[1],
    ]);
    lemma_place_is(mode, s2, e[2], 1);
    let s3 = ranked(mode, e, 3);
    assert(s3 =~= seq![
        e[0],
        e[2],
        e[1],
    ]);
    lemma_place_is(mode, s3, e[3], 3);
    let s4 = ranked(mode, e, 4);
    assert(s4 =~= seq![
        e[0],
        e[2],
        e[1],
        e[3],
    ]);
    lemma_place_is(mode, s4, e[4], 1);
    let s5 = ranked(mode, e, 5);
    assert(s5 =~= seq![
        e[0],
        e[4],
        e[2],
        e[1],
        e[3],
    ]);
    lemma_place_is(mode, s5, e[5], 4);
    let s6 = ranked(mode, e, 6);
    assert(s6 =~= seq![
        e[0],
        e[4],
        e[2],
        e[1],
        e[5],
        e[3],
    ]);
    lemma_place_is(mode, s6, e[6], 2);
    let s7 = ranked(mode, e, 7);
    assert(s7 =~= seq![
        e[0],
        e[4],
        e[6],
        e[2],
        e[1],
        e[5],
        e[3],
    ]);
    lemma_place_is(mode, s7, e[7], 6);
    let s8 = ranked(mode, e, 8);
    assert(s8 =~= seq![
        e[0],
        e[4],
        e[6],
        e[2],
        e[1],
        e[5],
        e[7],
        e[3],
    ]);
    lemma_place_is(mode, s8, e[8], 4);
    let s9 = ranked(mode, e, 9);
    assert(s9 =~= seq![
        e[0],
        e[4],
        e[6],
        e[2],
        e[8],
        e[1],
        e[5],
        e[7],
        e[3],
    ]);
    lemma_place_is(mode, s9, e[9], 9);
    let s10 = ranked(mode, e, 10);
    assert(s10 =~= seq![
        e[0],
        e[4],
        e[6],
        e[2],
        e[8],
        e[1],
        e[5],
        e[7],
        e[3],
        e[9],
    ]);
    lemma_place_is(mode, s10, e[10], 5);
    let s11 = ranked(mode, e, 11);
    assert(s11 =~= seq![
        e[0],
        e[4],
        e[6],
        e[2],
        e[8],
        e[10],
        e[1],
        e[5],
        e[7],
        e[3],
        e[9],
    ]);
    lemma_place_is(mode, s11, e[11], 6);
    let s12 = ranked(mode, e, 12);
    assert(s12 =~= seq![
        e[0],
        e[4],
        e[6],
        e[2],
        e[8],
        e[10],
        e[11],
        e[1],
        e[5],
        e[7],
        e[3],
        e[9],
    ]);
    lemma_place_is(mode, s12, e[12], 12);
    let s13 = ranked(mode, e, 13);
    assert(s13 =~= seq![
        e[0],
        e[4],
        e[6],
        e[2],
        e[8],
        e[10],
        e[11],
        e[1],
        e[5],
        e[7],
        e[3],
        e[9],
        e[12],
    ]);
}

/// The modes we can encode, the largest first and of those the fastest.
pub open spec fn quality_order() -> Seq<VideoMode> {
    seq![
        VideoMode { width: 1920, height: 1080, fps: 60 },
        VideoMode { width: 1920, height: 1080, fps: 30 },
        VideoMode { width: 1366, height: 768, fps: 60 },
        VideoMode { width: 1024, height: 768, fps: 60 },
        VideoMode { width: 1366, height: 768, fps: 30 },
        VideoMode { width: 1024, height: 768, fps: 30 },
        VideoMode { width: 1280, height: 720, fps: 60 },
        VideoMode { width: 1280, height: 720, fps: 30 },
        VideoMode { width: 960, height: 540, fps: 60 },
        VideoMode { width: 960, height: 540, fps: 30 },
        VideoMode { width: 640, height: 480, fps: 60 },
        VideoMode { width: 640, height: 360, fps: 60 },
        VideoMode { width: 640, height: 360, fps: 30 },
    ]
}

/// The modes we can encode, the fastest first and of those the largest.
pub open spec fn game_order() -> Seq<VideoMode> {
    seq![
        VideoMode { width: 1920, height: 1080, fps: 60 },
        VideoMode { width: 1366, height: 768, fps: 60 },
        VideoMode { width: 1024, height: 768, fps: 60 },
        VideoMode { width: 1280, height: 720, fps: 60 },
        VideoMode { width: 960, height: 540, fps: 60 },
        VideoMode { width: 640, height: 480, fps: 60 },
        VideoMode { width: 640, height: 360, fps: 60 },
        VideoMode { width: 1920, height: 1080, fps: 30 },
        VideoMode { width: 1366, height: 768, fps: 30 },
        VideoMode { width: 1024, height: 768, fps: 30 },
        VideoMode { width: 1280, height: 720, fps: 30 },
        VideoMode { width: 960, height: 540, fps: 30 },
        VideoMode { width: 640, height: 360, fps: 30 },
    ]
}

/// Whether a mode needs no more than a ceiling in Mbit/s, at six million pixels
/// to the Mbit and never less than one.
pub open spec fn carries(ceiling: u16) -> spec_fn(VideoMode) -> bool {
    |m: VideoMode| 1 <= ceiling && m.width * m.height * m.fps < 6_000_000 * (ceiling + 1)
}

/// Game and Quality propose the same modes in their own order, without those that
/// need more than the ceiling.
pub proof fn law_the_proposals(ceiling: u16)
    ensures
        proposals(Mode::Quality, None) == quality_order(),
        proposals(Mode::Game, None) == game_order(),
        proposals(Mode::Quality, Some(ceiling)) == quality_order().filter(carries(ceiling)),
        proposals(Mode::Game, Some(ceiling)) == game_order().filter(carries(ceiling)),
{
    lemma_quality_order();
    lemma_game_order();
    law_the_proposals_of_a_mode(Mode::Quality, ceiling);
    law_the_proposals_of_a_mode(Mode::Game, ceiling);
    lemma_no_ceiling(quality_order(), 0);
    lemma_no_ceiling(game_order(), 0);
    assert(quality_order().skip(0) =~= quality_order());
    assert(game_order().skip(0) =~= game_order());
    lemma_same_filter(quality_order(), ceiling);
    lemma_same_filter(game_order(), ceiling);
}

proof fn lemma_no_ceiling(s: Seq<VideoMode>, i: int)
    requires
        0 <= i <= s.len(),
    ensures
        affordable(s, None, i) == s.skip(i),
    decreases s.len() - i,
{
    if i < s.len() {
        lemma_no_ceiling(s, i + 1);
        assert(s.skip(i) =~= seq![s[i]] + s.skip(i + 1));
    } else {
        assert(s.skip(i) =~= Seq::empty());
    }
}

proof fn lemma_same_filter(s: Seq<VideoMode>, ceiling: u16)
    requires
        forall|i: int|
            0 <= i < s.len() ==> (#[trigger] s[i]).width <= 1920 && s[i].height <= 1080 && s[i].fps
                <= 60,
    ensures
        s.filter(within(ceiling)) == s.filter(carries(ceiling)),
    decreases s.len(),
{
    reveal(Seq::filter);
    if s.len() > 0 {
        let t = s.drop_last();
        assert forall|i: int| 0 <= i < t.len() implies (#[trigger] t[i]).width <= 1920
            && t[i].height <= 1080 && t[i].fps <= 60 by {
            assert(t[i] == s[i]);
        }
        lemma_same_filter(t, ceiling);
        let m = s[s.len() - 1];
        law_the_cost(m);
        let p = m.width * m.height * m.fps;
        let w = m.width as int;
        let h = m.height as int;
        let f = m.fps as int;
        assert(0 <= w * h * f <= 1920 * 1080 * 60) by (nonlinear_arith)
            requires
                0 <= w <= 1920,
                0 <= h <= 1080,
                0 <= f <= 60,
        {
            assert(0 <= w * h <= 1920 * 1080);
        }
        assert(within(ceiling)(m) == carries(ceiling)(m));
    }
}

/// A mode costs its pixels each second over six million, cut to a whole number
/// but at least one.
pub proof fn law_the_cost(m: VideoMode)
    ensures
        ({
            let rate = m.width * m.height * m.fps;
            &&& 0 <= rate < 12_000_000 ==> cost(m) == 1
            &&& 6_000_000 <= rate < 6_000_000 * 65536 ==> 6_000_000 * cost(m) <= rate < 6_000_000 * (
            cost(m) + 1)
        }),
{
}

} // verus!
