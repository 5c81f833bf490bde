//! What reports do to the rate and the resolution, one by one and in a row.
use vstd::prelude::*;
use crate::media::bitrate::{
    capped, floored, ladder_of, lemma_scaled, lemma_unit, nearest, scaled, unit_from,
    ControllerState, Resolution, DOUBLE_UNITS, SEVENTEEN_TWENTIETHS, SEVEN_TENTHS,
};
use crate::proto::{Mode, Stats};

verus! {

/// Whether something began, and at least `us` microseconds ago.
pub open spec fn lasted(since: Option<u64>, now: u64, us: int) -> bool {
    since matches Some(t) && now >= t + us
}

/// Whether a report has nothing wrong with it: fewer than one fragment in two
/// hundred lost, or none sent, and at most one frame waiting to be decoded.
pub open spec fn good(s: Stats) -> bool {
    let total = s.fragments_lost + s.fragments_received;
    (total == 0 || 200 * s.fragments_lost < total) && s.decode_queue_depth <= 1
}

/// Whether a report shows a receiver that cannot keep up though almost nothing
/// is lost on the way.
pub open spec fn slow(s: Stats) -> bool {
    let total = s.fragments_lost + s.fragments_received;
    (total == 0 || 200 * s.fragments_lost < total) && s.decode_queue_depth > 3
}

// ---- raising ----

/// On a good report the rate goes up by a twentieth of the ceiling, but not past
/// it, if a second has gone by since it last did or, where it has not since the
/// reports became good, since they did. Otherwise it stays.
pub proof fn law_good_seconds_raise_the_rate(c: ControllerState, s: Stats, now: u64)
    requires
        c.valid(),
        good(s),
    ensures
        ({
            let due = lasted(c.last_raise_us, now, 1_000_000) || (c.last_raise_us is None
                && lasted(c.clean_since_us, now, 1_000_000));
            let more = c.bitrate + c.ceiling / 20;
            let d = c.told(s, now);
            &&& due && more <= c.ceiling ==> d.bitrate == more
            &&& due && more > c.ceiling ==> d.bitrate == c.ceiling
            &&& !due ==> d.bitrate == c.bitrate
            &&& due && c.bitrate < c.ceiling ==> d.last_raise_us == Some(now)
            &&& !due || c.bitrate == c.ceiling ==> d.last_raise_us == c.last_raise_us
            &&& d.clean_since_us == Some(
                if c.clean_since_us is Some {
                    c.clean_since_us->0
                } else {
                    now
                },
            )
            &&& d.last_cut_us == c.last_cut_us
        }),
{
    // A good report neither loses one fragment in fifty nor waits with four frames.
}

/// A report with anything wrong starts the good time over and never raises the
/// rate.
pub proof fn law_a_bad_report_starts_over(c: ControllerState, s: Stats, now: u64)
    requires
        c.valid(),
        !good(s),
    ensures
        c.told(s, now).clean_since_us is None,
        c.told(s, now).last_raise_us is None,
        c.told(s, now).bitrate <= c.bitrate,
{
    lemma_scaled(c.bitrate, SEVEN_TENTHS);
    lemma_scaled(c.bitrate, SEVENTEEN_TWENTIETHS);
}

/// A controller after reports that came one after another.
pub open spec fn after(c: ControllerState, reports: Seq<(Stats, u64)>) -> ControllerState
    decreases reports.len(),
{
    if reports.len() == 0 {
        c
    } else {
        after(c, reports.drop_last()).told(reports.last().0, reports.last().1)
    }
}

/// With good reports a second or more apart, from a start at which none had been
/// good, every one but the first raises the rate until it is at the ceiling, and
/// there it stays.
pub proof fn law_good_reports_reach_the_ceiling(c: ControllerState, reports: Seq<(Stats, u64)>)
    requires
        c.valid(),
        c.clean_since_us is None,
        c.last_raise_us is None,
        forall|i: int| 0 <= i < reports.len() ==> good((#[trigger] reports[i]).0),
        forall|i: int, j: int|
            0 <= i && j == i + 1 && j < reports.len() ==> (#[trigger] reports[i]).1 + 1_000_000
                <= (#[trigger] reports[j]).1,
    ensures
        ({
            let d = after(c, reports);
            let n = if reports.len() == 0 {
                0
            } else {
                reports.len() - 1
            };
            let sum = c.bitrate + n * (c.ceiling / 20);
            &&& d.ceiling == c.ceiling
            &&& d.bitrate == if sum <= c.ceiling {
                sum
            } else {
                c.ceiling as int
            }
        }),
{
    lemma_good_reports(c, reports);
}

proof fn lemma_good_reports(c: ControllerState, reports: Seq<(Stats, u64)>)
    requires
        c.valid(),
        c.clean_since_us is None,
        c.last_raise_us is None,
        forall|i: int| 0 <= i < reports.len() ==> good((#[trigger] reports[i]).0),
        forall|i: int, j: int|
            0 <= i && j == i + 1 && j < reports.len() ==> (#[trigger] reports[i]).1 + 1_000_000
                <= (#[trigger] reports[j]).1,
    ensures
        ({
            let d = after(c, reports);
            let n = if reports.len() == 0 {
                0
            } else {
                reports.len() - 1
            };
            let sum = c.bitrate + n * (c.ceiling / 20);
            &&& d.valid()
            &&& d.ceiling == c.ceiling
            &&& d.bitrate == if sum <= c.ceiling {
                sum
            } else {
                c.ceiling as int
            }
            &&& reports.len() == 0 ==> d == c
            &&& reports.len() > 0 ==> d.clean_since_us is Some && d.clean_since_us->0
                <= reports.last().1
            &&& reports.len() > 0 && d.last_raise_us is Some ==> d.last_raise_us->0
                <= reports.last().1
        }),
    decreases reports.len(),
{
    if reports.len() == 0 {
        assert(0 * (c.ceiling / 20) == 0);
    } else {
        let front = reports.drop_last();
        let (s, now) = reports.last();
        assert forall|i: int| 0 <= i < front.len() implies good((#[trigger] front[i]).0) by {
            assert(front[i] == reports[i]);
        }
        assert forall|i: int, j: int|
            0 <= i && j == i + 1 && j < front.len() implies (#[trigger] front[i]).1 + 1_000_000 <= (
        #[trigger] front[j]).1 by {
            assert(front[i] == reports[i] && front[j] == reports[j]);
        }
        lemma_good_reports(c, front);
        let d = after(c, front);
        assert(good(reports[reports.len() - 1].0));
        law_good_seconds_raise_the_rate(d, s, now);
        crate::media::bitrate::law_decisions_stay_in_bounds(d, s, now);
        if front.len() > 0 {
            let i = front.len() - 1;
            assert(reports[i].1 + 1_000_000 <= reports[i + 1].1);
            assert(front.last() == reports[i]);
            let step = (c.ceiling / 20) as int;
            let n = reports.len() as int;
            assert((n - 1) * step == (n - 2) * step + step) by (nonlinear_arith);
        } else {
            assert(0 * (c.ceiling / 20) == 0);
        }
    }
}

// ---- cutting ----

/// How far the double nearest to `p`, or to what is left of it, can be off.
proof fn lemma_near(p: int, u: int)
    requires
        u >= 1,
    ensures
        2 * p - u <= 2 * (nearest(p, u) * u) <= 2 * p + u,
{
    vstd::arithmetic::div_mod::lemma_fundamental_div_mod(p, u);
    vstd::arithmetic::div_mod::lemma_mod_bound(p, u);
    let q = p / u;
    assert((q + 1) * u == u * q + u) by (nonlinear_arith);
    assert(q * u == u * q) by (nonlinear_arith);
}

/// Seven tenths, and seventeen twentieths, cut to a whole number: never more, and
/// less by at most one.
proof fn lemma_fractions(b: u32)
    ensures
        7 * b - 10 <= 10 * scaled(b, SEVEN_TENTHS) <= 7 * b,
        17 * b - 20 <= 20 * scaled(b, SEVENTEEN_TWENTIETHS) <= 17 * b,
{
    let d = DOUBLE_UNITS as int;
    assert(0 <= b * SEVEN_TENTHS <= 0x1_0000_0000 * DOUBLE_UNITS) by (nonlinear_arith)
        requires
            0 <= b <= 0x1_0000_0000,
            SEVEN_TENTHS < DOUBLE_UNITS,
    ;
    assert(0 <= b * SEVENTEEN_TWENTIETHS <= 0x1_0000_0000 * DOUBLE_UNITS) by (nonlinear_arith)
        requires
            0 <= b <= 0x1_0000_0000,
            SEVENTEEN_TWENTIETHS < DOUBLE_UNITS,
    ;
    let p = b * SEVEN_TENTHS;
    let u = unit_from(p, 1);
    lemma_unit(p, 1);
    lemma_near(p, u);
    let v = nearest(p, u) * u;
    assert(10 * p == 7 * (b * d) - 4 * b) by (nonlinear_arith)
        requires
            p == b * SEVEN_TENTHS,
            10 * SEVEN_TENTHS == 7 * d - 4,
    ;
    lemma_cut(b as int, v, 10, 7);
    let p2 = b * SEVENTEEN_TWENTIETHS;
    let u2 = unit_from(p2, 1);
    lemma_unit(p2, 1);
    lemma_near(p2, u2);
    let v2 = nearest(p2, u2) * u2;
    assert(20 * p2 == 17 * (b * d) - 4 * b) by (nonlinear_arith)
        requires
            p2 == b * SEVENTEEN_TWENTIETHS,
            20 * SEVENTEEN_TWENTIETHS == 17 * d - 4,
    ;
    lemma_cut(b as int, v2, 20, 17);
}

proof fn lemma_cut(b: int, v: int, whole: int, part: int)
    requires
        0 <= b <= 0xFFFF_FFFF,
        1 <= whole <= 20,
        1 <= part <= 20,
        part * (b * DOUBLE_UNITS) - 0x20_0000_0000 <= whole * v <= part * (b * DOUBLE_UNITS)
            + 0x20_0000_0000,
    ensures
        part * b - whole <= whole * (v / (DOUBLE_UNITS as int)) <= part * b,
{
    let d = DOUBLE_UNITS as int;
    let x = v / d;
    assert(d * x <= v < d * x + d);
    assert(whole * x <= part * b) by (nonlinear_arith)
        requires
            d * x <= v,
            whole >= 1,
            whole * v <= part * (b * d) + 0x20_0000_0000,
            d == 9_007_199_254_740_992,
    {
        assert(d * (whole * x) == whole * (d * x));
        assert(whole * (d * x) <= whole * v);
        assert(part * (b * d) == d * (part * b));
        assert(d * (whole * x) < d * (part * b) + d);
    }
    assert(part * b - whole <= whole * x) by (nonlinear_arith)
        requires
            v < d * x + d,
            whole >= 1,
            part * (b * d) - 0x20_0000_0000 <= whole * v,
            d == 9_007_199_254_740_992,
    {
        assert(d * (whole * x + whole) == whole * (d * x + d));
        assert(whole * v <= whole * (d * x + d));
        assert(part * (b * d) == d * (part * b));
        assert(d * (part * b) < d * (whole * x + whole) + d);
    }
}

/// Loss of more than one fragment in fifty cuts the rate to seven tenths, and a
/// queue of more than three frames with no such loss to seventeen twentieths, in
/// whole bits and never below a million; but not within half a second of the last
/// cut. Nothing else cuts it.
pub proof fn law_cuts(c: ControllerState, s: Stats, now: u64)
    requires
        c.valid(),
    ensures
        ({
            let free = c.last_cut_us is None || lasted(c.last_cut_us, now, 500_000);
            let loss = 50 * s.fragments_lost > s.fragments_lost + s.fragments_received;
            let deep = s.decode_queue_depth > 3;
            let d = c.told(s, now);
            let (old_rate, rate) = (c.bitrate as int, d.bitrate as int);
            &&& free && loss ==> d.last_cut_us == Some(now) && rate >= 1_000_000 && 10 * rate >= 7
                * old_rate - 10 && (rate == 1_000_000 || 10 * rate <= 7 * old_rate)
            &&& free && !loss && deep ==> d.last_cut_us == Some(now) && rate >= 1_000_000 && 20
                * rate >= 17 * old_rate - 20 && (rate == 1_000_000 || 20 * rate <= 17 * old_rate)
            &&& !free || (!loss && !deep) ==> d.last_cut_us == c.last_cut_us && rate >= old_rate
            &&& !good(s) && (!free || (!loss && !deep)) ==> rate == old_rate
        }),
{
    lemma_fractions(c.bitrate);
    lemma_scaled(c.bitrate, SEVEN_TENTHS);
    lemma_scaled(c.bitrate, SEVENTEEN_TWENTIETHS);
}

// ---- resolution ----

/// In game mode a report costs a rung if the receiver has been slow for a second,
/// costs a rung if the rate has been at a million for two, and earns one if the
/// reports have been good for the waiting time and no rung was earned in it; as
/// far as there are rungs. What has been acted upon starts anew, and a slow
/// receiver doubles the waiting time, up to a minute.
pub proof fn law_rungs(c: ControllerState, s: Stats, now: u64)
    requires
        c.valid(),
        c.mode == Mode::Game,
    ensures
        ({
            let d = c.told(s, now);
            let top = c.ladder.len() - 1;
            let wait = c.step_up_wait_us as int;
            let behind = slow(s) && lasted(c.queue_high_since_us, now, 1_000_000) && c.rung < top;
            let r1 = if behind {
                c.rung + 1
            } else {
                c.rung
            };
            let starved = d.bitrate == 1_000_000 && lasted(c.at_floor_since_us, now, 2_000_000)
                && r1 < top;
            let r2 = if starved {
                r1 + 1
            } else {
                r1
            };
            let earned = good(s) && lasted(c.clean_since_us, now, wait) && (c.last_step_up_us is None
                || lasted(c.last_step_up_us, now, wait)) && r2 > 0;
            &&& d.rung == if earned {
                r2 - 1
            } else {
                r2
            }
            &&& d.step_up_wait_us == if !behind {
                wait
            } else if wait <= 30_000_000 {
                2 * wait
            } else {
                60_000_000
            }
            &&& slow(s) ==> d.queue_high_since_us == Some(
                if behind || c.queue_high_since_us is None {
                    now
                } else {
                    c.queue_high_since_us->0
                },
            )
            &&& !slow(s) ==> d.queue_high_since_us is None
            &&& d.bitrate == 1_000_000 ==> d.at_floor_since_us == Some(
                if starved || c.at_floor_since_us is None {
                    now
                } else {
                    c.at_floor_since_us->0
                },
            )
            &&& d.bitrate != 1_000_000 ==> d.at_floor_since_us is None
            &&& d.last_step_up_us == if earned {
                Some(now)
            } else {
                c.last_step_up_us
            }
        }),
{
}

/// What a controller sends at and in what size is its rate and the rung of the
/// ladder that it stands on.
pub proof fn law_the_decision(c: ControllerState)
    ensures
        c.decision().bitrate_bps == c.bitrate,
        c.decision().resolution == c.ladder[c.rung],
{
}

/// A rate is asked for within its bounds: below a million it starts at a million,
/// above the ceiling at the ceiling.
pub proof fn law_the_first_rate(initial: u32, ceiling: u32)
    requires
        ceiling >= 1_000_000,
    ensures
        ({
            let rate = capped(floored(initial as int) as int, ceiling);
            &&& initial < 1_000_000 ==> rate == 1_000_000
            &&& initial > ceiling ==> rate == ceiling
            &&& 1_000_000 <= initial <= ceiling ==> rate == initial
        }),
{
}

/// The ladder starts at the native size and goes on to those of the widths 1280
/// and 960 that are narrower. Each keeps the shape, to the even height at or next
/// below it.
pub proof fn law_the_ladder(native: Resolution)
    requires
        native.width > 1280 ==> 1280 * native.height <= u32::MAX,
        native.width > 960 ==> 960 * native.height <= u32::MAX,
    ensures
        ({
            let l = ladder_of(native);
            &&& l[0] == native
            &&& native.width <= 960 ==> l.len() == 1
            &&& 960 < native.width <= 1280 ==> l.len() == 2 && l[1].width == 960
            &&& native.width > 1280 ==> l.len() == 3 && l[1].width == 1280 && l[2].width == 960
            &&& forall|i: int|
                1 <= i < l.len() ==> (#[trigger] l[i]).height % 2 == 0 && l[i].height * native.width
                    <= l[i].width * native.height < (l[i].height + 2) * native.width
        }),
{
    let l = ladder_of(native);
    if native.width > 960 {
        lemma_rung(native, 960);
    }
    if native.width > 1280 {
        lemma_rung(native, 1280);
    }
    assert forall|i: int| 1 <= i < l.len() implies (#[trigger] l[i]).height % 2 == 0 && l[i].height
        * native.width <= l[i].width * native.height < (l[i].height + 2) * native.width by {
        assert(i == 1 || i == 2);
    }
}

proof fn lemma_rung(native: Resolution, width: u32)
    requires
        width < native.width,
        width * native.height <= u32::MAX,
    ensures
        ({
            let h = width as int * native.height as int / native.width as int;
            let e = (h - h % 2) as u32;
            &&& e == h - h % 2
            &&& e % 2 == 0
            &&& e * native.width <= width * native.height < (e + 2) * native.width
        }),
{
    let p = width as int * native.height as int;
    let w = native.width as int;
    let h = p / w;
    assert(0 <= p) by (nonlinear_arith)
        requires
            p == width as int * native.height as int,
    ;
    vstd::arithmetic::div_mod::lemma_fundamental_div_mod(p, w);
    vstd::arithmetic::div_mod::lemma_mod_bound(p, w);
    vstd::arithmetic::div_mod::lemma_div_pos_is_pos(p, w);
    vstd::arithmetic::div_mod::lemma_div_is_ordered_by_denominator(p, 1, w);
    assert(0 <= h <= p);
    let e = h - h % 2;
    assert(e * w <= p < (e + 2) * w) by (nonlinear_arith)
        requires
            p == w * h + p % w,
            0 <= p % w < w,
            e <= h < e + 2,
            w >= 1,
    ;
}

} // verus!
