//! What holds of log names.
use vstd::prelude::*;
use crate::net::calendar::{earlier, law_dates_are_in_order};
use crate::net::logging::{
    file_stamp_text, is_moment, is_ours, lemma_moment, log_name_text, moment, newest_text, ours_from, parts_of,
    place_after, pruned, sorted, two, year_text, Moment,
};
use crate::number::{dec, digit_char, law_parse_dec_of_filled, parse_dec, zero_fill};
use crate::text::{law_texts_are_ordered, less, less_from};

verus! {

/// Whether nothing comes before anything that stands before it.
pub open spec fn in_order(v: Seq<Seq<char>>) -> bool {
    forall|i: int, j: int| 0 <= i < j < v.len() ==> !less(#[trigger] v[j], #[trigger] v[i])
}

proof fn lemma_place(v: Seq<Seq<char>>, x: Seq<char>, i: int)
    requires
        0 <= i <= v.len(),
    ensures
        i <= place_after(v, x, i) <= v.len(),
        forall|k: int| i <= k < place_after(v, x, i) ==> !less(x, #[trigger] v[k]),
        place_after(v, x, i) < v.len() ==> less(x, v[place_after(v, x, i)]),
    decreases v.len() - i,
{
    if i < v.len() && !less(x, v[i]) {
        lemma_place(v, x, i + 1);
    }
}

/// Names that are put in order are in order, and are the names they were.
pub proof fn law_names_are_put_in_order(v: Seq<Seq<char>>, n: int)
    requires
        0 <= n <= v.len(),
    ensures
        sorted(v, n).len() == n,
        in_order(sorted(v, n)),
        sorted(v, n).to_multiset() == v.take(n).to_multiset(),
    decreases n,
{
    broadcast use vstd::seq_lib::group_to_multiset_ensures;

    if n > 0 {
        law_names_are_put_in_order(v, n - 1);
        let s = sorted(v, n - 1);
        let x = v[n - 1];
        let k = place_after(s, x, 0);
        lemma_place(s, x, 0);
        let t = s.insert(k, x);
        assert forall|i: int, j: int| 0 <= i < j < t.len() implies !less(
            #[trigger] t[j],
            #[trigger] t[i],
        ) by {
            if j < k {
                assert(t[i] == s[i] && t[j] == s[j]);
            } else if j == k {
                assert(t[i] == s[i]);
            } else if i < k {
                assert(t[i] == s[i] && t[j] == s[j - 1]);
            } else if i == k {
                assert(t[j] == s[j - 1]);
                if j - 1 > k {
                    assert(!less(s[j - 1], s[k]));
                    law_texts_are_ordered(s[j - 1], x, s[k]);
                } else {
                    law_texts_are_ordered(x, s[k], x);
                }
            } else {
                assert(t[i] == s[i - 1] && t[j] == s[j - 1]);
            }
        }
        assert(v.take(n) =~= v.take(n - 1).push(x));
        assert(t.to_multiset() == s.to_multiset().insert(x)) by {
            vstd::seq_lib::to_multiset_insert(s, k, x);
        }
        assert(v.take(n).to_multiset() == v.take(n - 1).to_multiset().insert(x));
    } else {
        assert(v.take(0) =~= seq![]);
    }
}

/// What is the same but for the order has the same members.
proof fn lemma_members(s: Seq<Seq<char>>, v: Seq<Seq<char>>, x: Seq<char>)
    requires
        s.to_multiset() == v.to_multiset(),
    ensures
        s.contains(x) <==> v.contains(x),
{
    vstd::seq_lib::to_multiset_contains(s, x);
    vstd::seq_lib::to_multiset_contains(v, x);
}

proof fn lemma_ours(app: Seq<char>, names: Seq<Seq<char>>, i: int, x: Seq<char>)
    requires
        0 <= i,
    ensures
        ours_from(app, names, i).contains(x) ==> is_ours(app, x) && names.contains(x),
    decreases names.len() - i,
{
    if i < names.len() {
        lemma_ours(app, names, i + 1, x);
        let rest = ours_from(app, names, i + 1);
        if ours_from(app, names, i).contains(x) && is_ours(app, names[i]) {
            let k = choose|k: int|
                0 <= k < ours_from(app, names, i).len() && ours_from(app, names, i)[k] == x;
            if k == 0 {
                assert(names[i] == x);
            } else {
                assert(rest[k - 1] == x);
            }
        }
    }
}

/// Only our own logs are ever deleted, and never more than leaves the newest:
/// whatever is deleted is a log of the application that was there, and nothing
/// that is kept comes before it.
pub proof fn law_only_old_logs_of_ours_are_deleted(
    app: Seq<char>,
    names: Seq<Seq<char>>,
    keep: int,
    i: int,
)
    requires
        0 <= keep,
        0 <= i < pruned(app, names, keep).len(),
    ensures
        is_ours(app, pruned(app, names, keep)[i]),
        names.contains(pruned(app, names, keep)[i]),
        ({
            let ours = ours_from(app, names, 0);
            let s = sorted(ours, ours.len() as int);
            &&& pruned(app, names, keep) == s.take(s.len() - keep)
            &&& forall|j: int|
                s.len() - keep <= j < s.len() ==> !less(
                    #[trigger] s[j],
                    pruned(app, names, keep)[i],
                )
        }),
{
    let ours = ours_from(app, names, 0);
    let n = ours.len() as int;
    law_names_are_put_in_order(ours, n);
    let s = sorted(ours, n);
    let x = pruned(app, names, keep)[i];
    assert(s[i] == x);
    assert(ours.take(n) =~= ours);
    assert(s.contains(x));
    lemma_members(s, ours, x);
    lemma_ours(app, names, 0, x);
}

/// As many logs are kept as there may be, and all of them where there is room.
pub proof fn law_enough_logs_are_kept(app: Seq<char>, names: Seq<Seq<char>>, keep: int)
    requires
        0 <= keep,
    ensures
        ({
            let n = ours_from(app, names, 0).len() as int;
            n - pruned(app, names, keep).len() == if n <= keep {
                n
            } else {
                keep
            }
        }),
{
    let ours = ours_from(app, names, 0);
    law_names_are_put_in_order(ours, ours.len() as int);
}

/// No log of ours comes after the newest.
pub proof fn law_the_newest_is_last(app: Seq<char>, names: Seq<Seq<char>>, x: Seq<char>)
    requires
        ours_from(app, names, 0).contains(x),
    ensures
        newest_text(app, names) matches Some(t) && !less(t, x) && names.contains(t),
{
    let ours = ours_from(app, names, 0);
    let n = ours.len() as int;
    law_names_are_put_in_order(ours, n);
    let s = sorted(ours, n);
    assert(ours.take(n) =~= ours);
    lemma_members(s, ours, x);
    let i = choose|i: int| 0 <= i < s.len() && s[i] == x;
    if i < n - 1 {
        assert(!less(s[n - 1], s[i]));
    } else {
        law_texts_are_ordered(x, x, x);
    }
    assert(s.contains(s[n - 1]));
    lemma_members(s, ours, s[n - 1]);
    lemma_ours(app, names, 0, s[n - 1]);
}

// ---- the order of names ----

/// Where two texts differ first, and the one is before the other there.
spec fn differs(a: Seq<char>, b: Seq<char>, i: int) -> bool {
    &&& 0 <= i < a.len()
    &&& i < b.len()
    &&& forall|k: int| 0 <= k < i ==> a[k] == b[k]
    &&& (a[i] as u32) < (b[i] as u32)
}

proof fn lemma_differs(a: Seq<char>, b: Seq<char>, i: int, k: int)
    requires
        differs(a, b, i),
        0 <= k <= i,
    ensures
        less_from(a, b, k),
    decreases i - k,
{
    if k < i {
        lemma_differs(a, b, i, k + 1);
    }
}

/// `w` digits of a number.
spec fn digits(n: nat, w: nat) -> Seq<char>
    decreases w,
{
    if w == 0 {
        seq![]
    } else {
        digits(n / 10, (w - 1) as nat).push(digit_char(n % 10))
    }
}

spec fn ten(w: nat) -> nat
    decreases w,
{
    if w == 0 {
        1
    } else {
        10 * ten((w - 1) as nat)
    }
}

proof fn lemma_digits(n: nat, w: nat)
    requires
        w > 0,
        n < ten(w),
    ensures
        zero_fill(dec(n), w) == digits(n, w),
        digits(n, w).len() == w,
    decreases w,
{
    if w == 1 {
        reveal_with_fuel(digits, 2);
        reveal_with_fuel(ten, 2);
        assert(dec(n) =~= digits(n, 1));
    } else {
        lemma_digits(n / 10, (w - 1) as nat);
        if n >= 10 {
            assert(zero_fill(dec(n), w) =~= zero_fill(dec(n / 10), (w - 1) as nat).push(
                digit_char(n % 10),
            ));
        } else {
            lemma_zeros((w - 1) as nat);
            assert(n / 10 == 0);
            assert(zero_fill(dec(n), w) =~= digits(n, w));
        }
    }
}

proof fn lemma_zeros(w: nat)
    ensures
        digits(0, w) == Seq::new(w, |i: int| '0'),
    decreases w,
{
    if w > 0 {
        lemma_zeros((w - 1) as nat);
        assert(digits(0, w) =~= Seq::new(w, |i: int| '0'));
    } else {
        assert(digits(0, 0) =~= Seq::new(0, |i: int| '0'));
    }
}

proof fn lemma_digits_differ(n: nat, m: nat, w: nat) -> (i: int)
    requires
        n < m < ten(w),
    ensures
        differs(digits(n, w), digits(m, w), i),
        digits(n, w).len() == w,
        digits(m, w).len() == w,
    decreases w,
{
    lemma_digits_len(n, w);
    lemma_digits_len(m, w);
    lemma_digits_len(n / 10, (w - 1) as nat);
    lemma_digits_len(m / 10, (w - 1) as nat);
    if n / 10 < m / 10 {
        lemma_digits_differ(n / 10, m / 10, (w - 1) as nat)
    } else {
        w - 1
    }
}

proof fn lemma_digits_len(n: nat, w: nat)
    ensures
        digits(n, w).len() == w,
    decreases w,
{
    if w > 0 {
        lemma_digits_len(n / 10, (w - 1) as nat);
    }
}

/// What differs in the middle differs as a whole.
proof fn lemma_between(p: Seq<char>, a: Seq<char>, b: Seq<char>, r: Seq<char>, s: Seq<char>, i: int)
    requires
        differs(a, b, i),
    ensures
        differs(p + a + r, p + b + s, p.len() + i),
{
    let x = p + a + r;
    let y = p + b + s;
    let j = p.len() + i;
    assert(x[j] == a[i] && y[j] == b[i]);
    assert forall|k: int| 0 <= k < j implies x[k] == y[k] by {
        if k >= p.len() {
            assert(x[k] == a[k - p.len()] && y[k] == b[k - p.len()]);
        }
    }
}

/// Two fixed-width numbers, one smaller than the other, in texts that begin
/// alike.
proof fn lemma_numbers(p: Seq<char>, n: nat, m: nat, w: nat, r: Seq<char>, s: Seq<char>)
    requires
        w > 0,
        n < m < ten(w),
    ensures
        less(p + zero_fill(dec(n), w) + r, p + zero_fill(dec(m), w) + s),
{
    lemma_digits(n, w);
    lemma_digits(m, w);
    let i = lemma_digits_differ(n, m, w);
    lemma_between(p, digits(n, w), digits(m, w), r, s, i);
    lemma_differs(
        p + digits(n, w) + r,
        p + digits(m, w) + s,
        p.len() + i,
        0,
    );
}

/// Which part of two moments differs first.
proof fn lemma_later(a: u64, b: u64, t: Moment, u: Moment)
    requires
        a < b,
        is_moment(a, t),
        is_moment(b, u),
    ensures
        earlier((t.y, t.mo, t.d), (u.y, u.mo, u.d)) || (t.y == u.y && t.mo == u.mo && t.d == u.d
            && (t.h < u.h || t.h == u.h && (t.mi < u.mi || t.mi == u.mi && t.s < u.s))),
{
    let x = (t.y, t.mo, t.d);
    let y = (u.y, u.mo, u.d);
    if earlier(y, x) {
        law_dates_are_in_order(y, x);
    }
    assert(a / 86_400 <= b / 86_400);
    if !earlier(x, y) {
        assert(x == y);
        let p = a % 86_400;
        let q = b % 86_400;
        assert(p < q);
        assert(p == 3600 * (p / 3600) + p % 3600);
        assert(p % 60 == p % 3600 % 60);
        assert(q % 60 == q % 3600 % 60);
    }
}

/// The six parts of a name that say when, between what comes before and after.
spec fn assembled(head: Seq<char>, p: Seq<Seq<char>>, tail: Seq<char>) -> Seq<char> {
    head + p[0] + p[1] + p[2] + "-"@ + p[3] + p[4] + p[5] + tail
}

/// What comes before the `k`-th of them.
spec fn before(head: Seq<char>, p: Seq<Seq<char>>, k: int) -> Seq<char> {
    if k == 0 {
        head
    } else if k == 1 {
        head + p[0]
    } else if k == 2 {
        head + p[0] + p[1]
    } else if k == 3 {
        head + p[0] + p[1] + p[2] + "-"@
    } else if k == 4 {
        head + p[0] + p[1] + p[2] + "-"@ + p[3]
    } else {
        head + p[0] + p[1] + p[2] + "-"@ + p[3] + p[4]
    }
}

/// What comes after it.
spec fn after(p: Seq<Seq<char>>, tail: Seq<char>, k: int) -> Seq<char> {
    if k == 0 {
        p[1] + p[2] + "-"@ + p[3] + p[4] + p[5] + tail
    } else if k == 1 {
        p[2] + "-"@ + p[3] + p[4] + p[5] + tail
    } else if k == 2 {
        "-"@ + p[3] + p[4] + p[5] + tail
    } else if k == 3 {
        p[4] + p[5] + tail
    } else if k == 4 {
        p[5] + tail
    } else {
        tail
    }
}

proof fn lemma_regroup(head: Seq<char>, p: Seq<Seq<char>>, tail: Seq<char>, k: int)
    requires
        0 <= k <= 5,
        p.len() == 6,
    ensures
        assembled(head, p, tail) == before(head, p, k) + p[k] + after(p, tail, k),
{
    if k == 0 {
        assert(assembled(head, p, tail) =~= head + p[0] + after(p, tail, 0));
    } else if k == 1 {
        assert(assembled(head, p, tail) =~= before(head, p, 1) + p[1] + after(p, tail, 1));
    } else if k == 2 {
        assert(assembled(head, p, tail) =~= before(head, p, 2) + p[2] + after(p, tail, 2));
    } else if k == 3 {
        assert(assembled(head, p, tail) =~= before(head, p, 3) + p[3] + after(p, tail, 3));
    } else if k == 4 {
        assert(assembled(head, p, tail) =~= before(head, p, 4) + p[4] + after(p, tail, 4));
    }
}

/// The width of each part.
spec fn width(k: int) -> nat {
    if k == 0 {
        4
    } else {
        2
    }
}

spec fn written(n: Seq<nat>) -> Seq<Seq<char>> {
    Seq::new(6, |k: int| zero_fill(dec(n[k]), width(k)))
}

/// Names are in the order of the first part in which they differ.
proof fn lemma_first_difference(
    head: Seq<char>,
    n: Seq<nat>,
    m: Seq<nat>,
    s: Seq<char>,
    t: Seq<char>,
    k: int,
)
    requires
        0 <= k <= 5,
        n.len() == 6,
        m.len() == 6,
        n[k] < m[k] < ten(width(k)),
        forall|i: int| 0 <= i < k ==> n[i] == m[i],
    ensures
        less(assembled(head, written(n), s), assembled(head, written(m), t)),
{
    let p = written(n);
    let q = written(m);
    lemma_regroup(head, p, s, k);
    lemma_regroup(head, q, t, k);
    assert forall|i: int| 0 <= i < k implies p[i] == q[i] by {
        assert(n[i] == m[i]);
    }
    assert(before(head, p, k) == before(head, q, k));
    lemma_numbers(before(head, p, k), n[k], m[k], width(k), after(p, s, k), after(q, t, k));
}

/// The numbers of a moment.
spec fn numbers(t: Moment) -> Seq<nat> {
    seq![t.y as nat, t.mo as nat, t.d as nat, t.h as nat, t.mi as nat, t.s as nat]
}

proof fn lemma_name(app: Seq<char>, secs: u64, pid: u32, t: Moment)
    requires
        is_moment(secs, t),
        t == moment(secs),
        0 <= t.y <= 9999,
    ensures
        log_name_text(app, secs, pid) == assembled(
            app + "-"@,
            written(numbers(t)),
            "-"@ + zero_fill(dec(pid as nat), 5) + ".log"@,
        ),
{
    let x = parts_of(t);
    let p = written(numbers(t));
    assert(p[0] == year_text(x.0));
    assert(p[1] == two(x.1));
    assert(p[2] == two(x.2));
    assert(p[3] == two(x.3));
    assert(p[4] == two(x.4));
    assert(p[5] == two(x.5));
    lemma_flatten(app, p, zero_fill(dec(pid as nat), 5), ".log"@);
}

proof fn lemma_flatten(app: Seq<char>, p: Seq<Seq<char>>, pid: Seq<char>, ext: Seq<char>)
    ensures
        app + "-"@ + (p[0] + p[1] + p[2] + "-"@ + p[3] + p[4] + p[5]) + "-"@ + pid + ext
            == assembled(app + "-"@, p, "-"@ + pid + ext),
{
    assert(app + "-"@ + (p[0] + p[1] + p[2] + "-"@ + p[3] + p[4] + p[5]) + "-"@ + pid + ext
        =~= assembled(app + "-"@, p, "-"@ + pid + ext));
}

/// A later run's log has a name that comes later, as long as its year has four
/// digits.
pub proof fn law_log_names_sort_by_time(app: Seq<char>, a: u64, b: u64, p: u32, q: u32)
    requires
        a < b,
        moment(b).y <= 9999,
    ensures
        less(log_name_text(app, a, p), log_name_text(app, b, q)),
{
    let t = moment(a);
    let u = moment(b);
    lemma_moment(a);
    lemma_moment(b);
    lemma_later(a, b, t, u);
    lemma_name(app, a, p, t);
    lemma_name(app, b, q, u);
    assert(ten(2) == 100) by {
        reveal_with_fuel(ten, 3);
    }
    assert(ten(4) == 10000) by {
        reveal_with_fuel(ten, 5);
    }
    let k: int = if t.y < u.y {
        0
    } else if t.mo < u.mo {
        1
    } else if t.d < u.d {
        2
    } else if t.h < u.h {
        3
    } else if t.mi < u.mi {
        4
    } else {
        5
    };
    lemma_first_difference(
        app + "-"@,
        numbers(t),
        numbers(u),
        "-"@ + zero_fill(dec(p as nat), 5) + ".log"@,
        "-"@ + zero_fill(dec(q as nat), 5) + ".log"@,
        k,
    );
}

/// Two runs do not share a log, even where they start in the same second.
pub proof fn law_two_runs_do_not_share_a_name(app: Seq<char>, secs: u64, p: u32, q: u32)
    requires
        log_name_text(app, secs, p) == log_name_text(app, secs, q),
    ensures
        p == q,
{
    let head = app + "-"@ + file_stamp_text(parts_of(moment(secs))) + "-"@;
    let a = zero_fill(dec(p as nat), 5);
    let b = zero_fill(dec(q as nat), 5);
    let l = log_name_text(app, secs, p);
    let r = log_name_text(app, secs, q);
    assert(l =~= head + a + ".log"@);
    assert(r =~= head + b + ".log"@);
    assert(a.len() == b.len());
    assert forall|i: int| 0 <= i < a.len() implies a[i] == b[i] by {
        assert(l[head.len() + i] == a[i]);
        assert(r[head.len() + i] == b[i]);
    }
    assert(a =~= b);
    law_parse_dec_of_filled(p as nat, 5, u32::MAX as nat);
    law_parse_dec_of_filled(q as nat, 5, u32::MAX as nat);
}

// ---- moments ----

/// The parts of a moment add up to it: days since 1970, hours, minutes and seconds,
/// each less than the next larger has.
pub proof fn law_the_parts_of_a_moment_add_up(secs: u64)
    ensures
        ({
            let t = crate::net::logging::moment(secs);
            &&& 86_400 * crate::net::calendar::day_number(t.y, t.mo, t.d) + 3600 * t.h + 60 * t.mi
                + t.s == secs
            &&& 0 <= t.h < 24
            &&& 0 <= t.mi < 60
            &&& 0 <= t.s < 60
            &&& crate::net::calendar::is_date(t.y, t.mo, t.d)
        }),
{
    crate::net::logging::lemma_moment(secs);
}

/// An argument with a space in it is shown in quotes, any other as it is.
pub proof fn law_arguments_stay_whole(a: Seq<char>)
    ensures
        (exists|i: int| 0 <= i < a.len() && #[trigger] a[i] == ' ')
            ==> crate::net::logging::arg_text(a) == seq!['"'] + a + seq!['"'],
        (forall|i: int| 0 <= i < a.len() ==> #[trigger] a[i] != ' ')
            ==> crate::net::logging::arg_text(a) == a,
{
    reveal_strlit("\"");
    assert("\""@ =~= seq!['"']);
    lemma_space(a, 0);
}

proof fn lemma_space(a: Seq<char>, i: int)
    requires
        0 <= i <= a.len(),
    ensures
        crate::text::find_from(a, ' ', i) < a.len() <==> exists|k: int|
            i <= k < a.len() && #[trigger] a[k] == ' ',
        crate::text::find_from(a, ' ', i) <= a.len(),
    decreases a.len() - i,
{
    if i < a.len() && a[i] != ' ' {
        lemma_space(a, i + 1);
    }
}

proof fn lemma_wide(n: nat, width: nat, max: nat)
    requires
        width == 2 && n < 100 || width == 4 && n < 10_000,
        n <= max,
    ensures
        zero_fill(dec(n), width).len() == width,
        parse_dec(zero_fill(dec(n), width), max) == Some(n),
{
    assert(vstd::arithmetic::power::pow(10, 2) == 100) by {
        reveal_with_fuel(vstd::arithmetic::power::pow, 3);
    }
    assert(vstd::arithmetic::power::pow(10, 4) == 10_000) by {
        reveal_with_fuel(vstd::arithmetic::power::pow, 5);
    }
    crate::number::lemma_dec_len(n, width);
    law_parse_dec_of_filled(n, width, max);
}

/// A timestamp reads `YYYY-MM-DD hh:mm:ssZ`, and each field is its part of the moment.
pub proof fn law_a_timestamp_shows_the_moment(secs: u64)
    requires
        moment(secs).y <= 9999,
    ensures
        ({
            let s = crate::net::logging::timestamp_text(parts_of(moment(secs)));
            let t = moment(secs);
            &&& s.len() == 20
            &&& parse_dec(s.subrange(0, 4), 9999) == Some(t.y as nat)
            &&& parse_dec(s.subrange(5, 7), 99) == Some(t.mo as nat)
            &&& parse_dec(s.subrange(8, 10), 99) == Some(t.d as nat)
            &&& parse_dec(s.subrange(11, 13), 99) == Some(t.h as nat)
            &&& parse_dec(s.subrange(14, 16), 99) == Some(t.mi as nat)
            &&& parse_dec(s.subrange(17, 19), 99) == Some(t.s as nat)
            &&& s[4] == '-' && s[7] == '-' && s[10] == ' ' && s[13] == ':' && s[16] == ':'
            &&& s[19] == 'Z'
        }),
{
    let t = moment(secs);
    lemma_moment(secs);
    let s = crate::net::logging::timestamp_text(parts_of(t));
    reveal_strlit("-");
    reveal_strlit(" ");
    reveal_strlit(":");
    reveal_strlit("Z");
    lemma_wide(t.y as nat, 4, 9999);
    lemma_wide(t.mo as nat, 2, 99);
    lemma_wide(t.d as nat, 2, 99);
    lemma_wide(t.h as nat, 2, 99);
    lemma_wide(t.mi as nat, 2, 99);
    lemma_wide(t.s as nat, 2, 99);
    assert(s.subrange(0, 4) =~= zero_fill(dec(t.y as nat), 4));
    assert(s.subrange(5, 7) =~= zero_fill(dec(t.mo as nat), 2));
    assert(s.subrange(8, 10) =~= zero_fill(dec(t.d as nat), 2));
    assert(s.subrange(11, 13) =~= zero_fill(dec(t.h as nat), 2));
    assert(s.subrange(14, 16) =~= zero_fill(dec(t.mi as nat), 2));
    assert(s.subrange(17, 19) =~= zero_fill(dec(t.s as nat), 2));
}

/// A log that was named for an application is one of its logs.
pub proof fn law_a_log_is_found_again(app: Seq<char>, secs: u64, pid: u32)
    ensures
        is_ours(app, log_name_text(app, secs, pid)),
{
    let name = log_name_text(app, secs, pid);
    let head = app + "-"@;
    assert(name.subrange(0, head.len() as int) =~= head);
    assert(name.subrange(name.len() - ".log"@.len(), name.len() as int) =~= ".log"@);
}

/// Logs live in `logs` below the directory, with one slash before it.
pub proof fn law_where_logs_live(dir: Seq<char>)
    ensures
        ({
            let r = crate::net::logging::dir_text(dir);
            &&& dir.len() == 0 ==> r == "logs"@
            &&& dir.len() > 0 && dir.last() == '/' ==> r == dir + "logs"@
            &&& dir.len() > 0 && dir.last() != '/' ==> r == dir + seq!['/'] + "logs"@
        }),
{
    reveal_strlit("/");
    assert("/"@ =~= seq!['/']);
    assert(dir.len() == 0 ==> dir + "logs"@ =~= "logs"@);
}

} // verus!
