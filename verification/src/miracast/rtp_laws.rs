//! What holds of the reordering window over a whole stream.
use vstd::multiset::Multiset;
use vstd::prelude::*;
use crate::miracast::rtp::{
    ahead, at_or_after, drain, flushed, holds, inserted, law_held_stays_within_window,
    law_push_keeps_every_packet, lemma_slot, next_seq, pushed, slot, PacketView, ReorderState,
};

verus! {

// ---- order in the window ----

/// The packets held come after what is due, each further on than the one before
/// it. Before anything is due, one at most is held.
pub open spec fn ordered(s: ReorderState) -> bool {
    match s.next {
        Some(n) => {
            &&& forall|i: int| 0 <= i < s.held.len() ==> ahead(#[trigger] s.held[i].sequence, n) < 0x8000
            &&& forall|i: int, j: int|
                0 <= i < j < s.held.len() ==> ahead(#[trigger] s.held[i].sequence, n) < ahead(
                    #[trigger] s.held[j].sequence,
                    n,
                )
        },
        None => s.held.len() <= 1,
    }
}

/// What one step of handing on leaves.
spec fn stepped(s: ReorderState) -> ReorderState {
    let head = s.held[0];
    let missing = match s.next {
        Some(n) if n != head.sequence => ahead(head.sequence, n),
        _ => 0,
    };
    ReorderState {
        window: s.window,
        held: s.held.drop_first(),
        next: Some(next_seq(head.sequence)),
        lost: vstd::wrapping::u64_specs::wrapping_add(s.lost, missing as u64),
    }
}

/// Whether the head of the window is handed on.
spec fn gives(s: ReorderState) -> bool {
    s.held.len() > 0 && (s.next == None::<u16> || s.next == Some(s.held[0].sequence)
        || s.held.len() > s.window)
}

proof fn lemma_drain_steps(s: ReorderState)
    ensures
        gives(s) ==> drain(s).0 == drain(stepped(s)).0 && drain(s).1 == seq![s.held[0]] + drain(
            stepped(s),
        ).1,
        !gives(s) ==> drain(s) == (s, Seq::<PacketView>::empty()),
{
}

#[verifier::spinoff_prover]
#[verifier::rlimit(60)]
proof fn lemma_step_keeps_order(s: ReorderState)
    requires
        ordered(s),
        s.held.len() > 0,
    ensures
        ordered(stepped(s)),
{
    let t = stepped(s);
    let m = t.next.unwrap();
    if let Some(n) = s.next {
        let h = s.held[0].sequence;
        assert forall|i: int| 0 <= i < t.held.len() implies ahead(
            #[trigger] t.held[i].sequence,
            m,
        ) == ahead(s.held[i + 1].sequence, n) - ahead(h, n) - 1 by {
            assert(t.held[i] == s.held[i + 1]);
            assert(ahead(s.held[0].sequence, n) < ahead(s.held[i + 1].sequence, n));
        }
        assert forall|i: int, j: int| 0 <= i < j < t.held.len() implies ahead(
            #[trigger] t.held[i].sequence,
            m,
        ) < ahead(#[trigger] t.held[j].sequence, m) by {
            assert(ahead(s.held[i + 1].sequence, n) < ahead(s.held[j + 1].sequence, n));
        }
        assert forall|i: int| 0 <= i < t.held.len() implies ahead(#[trigger] t.held[i].sequence, m)
            < 0x8000 by {
            assert(ahead(s.held[i + 1].sequence, n) < 0x8000);
        }
    }
}

proof fn lemma_drain_keeps_order(s: ReorderState)
    requires
        ordered(s),
    ensures
        ordered(drain(s).0),
    decreases s.held.len(),
{
    lemma_drain_steps(s);
    if gives(s) {
        lemma_step_keeps_order(s);
        lemma_drain_keeps_order(stepped(s));
    }
}

/// Where a packet belongs: after those that are not as far on, before those that
/// are further.
proof fn lemma_slot_is_in_order(held: Seq<PacketView>, n: u16, q: u16, i: int)
    requires
        ahead(q, n) < 0x8000,
        forall|k: int| 0 <= k < held.len() ==> ahead(#[trigger] held[k].sequence, n) < 0x8000,
        forall|j: int, k: int|
            0 <= j < k < held.len() ==> ahead(#[trigger] held[j].sequence, n) < ahead(
                #[trigger] held[k].sequence,
                n,
            ),
        0 <= i <= held.len(),
        forall|k: int| 0 <= k < i ==> ahead(#[trigger] held[k].sequence, n) < ahead(q, n),
    ensures
        ({
            let at = slot(held, q, i);
            &&& i <= at <= held.len()
            &&& forall|k: int| 0 <= k < at ==> ahead(#[trigger] held[k].sequence, n) < ahead(q, n)
            &&& forall|k: int|
                at <= k < held.len() ==> ahead(q, n) <= ahead(#[trigger] held[k].sequence, n)
        }),
    decreases held.len() - i,
{
    if i < held.len() {
        let x = ahead(held[i].sequence, n);
        let y = ahead(q, n);
        assert(at_or_after(held[i].sequence, q) <==> x >= y);
        if x < y {
            lemma_slot_is_in_order(held, n, q, i + 1);
        }
    }
}

#[verifier::spinoff_prover]
#[verifier::rlimit(60)]
proof fn lemma_insert_keeps_order(s: ReorderState, p: PacketView)
    requires
        ordered(s),
        s.accepts(p.sequence),
        s.next is None ==> s.held.len() == 0,
    ensures
        ordered(ReorderState { held: inserted(s.held, p), ..s }),
{
    let t = ReorderState { held: inserted(s.held, p), ..s };
    lemma_slot(s.held, p.sequence, 0);
    let at = slot(s.held, p.sequence, 0);
    if let Some(n) = s.next {
        lemma_slot_is_in_order(s.held, n, p.sequence, 0);
        assert forall|k: int| at <= k < s.held.len() implies ahead(p.sequence, n) < ahead(
            #[trigger] s.held[k].sequence,
            n,
        ) by {
            assert(s.held[k].sequence != p.sequence);
        }
        assert forall|i: int| 0 <= i < t.held.len() implies ahead(#[trigger] t.held[i].sequence, n)
            < 0x8000 by {
            if i < at {
                assert(t.held[i] == s.held[i]);
            } else if i > at {
                assert(t.held[i] == s.held[i - 1]);
            }
        }
        assert forall|i: int, j: int| 0 <= i < j < t.held.len() implies ahead(
            #[trigger] t.held[i].sequence,
            n,
        ) < ahead(#[trigger] t.held[j].sequence, n) by {
            if i < at {
                assert(t.held[i] == s.held[i]);
            } else if i > at {
                assert(t.held[i] == s.held[i - 1]);
            }
            if j < at {
                assert(t.held[j] == s.held[j]);
            } else if j > at {
                assert(t.held[j] == s.held[j - 1]);
            }
        }
    }
}

// ---- streams ----

/// What can be asked of a window.
pub enum Turn {
    Push(PacketView),
    Flush,
}

/// What one turn comes to.
pub open spec fn turned(s: ReorderState, t: Turn) -> (ReorderState, Seq<PacketView>) {
    match t {
        Turn::Push(p) => pushed(s, p),
        Turn::Flush => flushed(s),
    }
}

/// A new window after some turns, and all that was handed on.
pub open spec fn played(window: nat, turns: Seq<Turn>) -> (ReorderState, Seq<PacketView>)
    decreases turns.len(),
{
    if turns.len() == 0 {
        (ReorderState::init(window), Seq::empty())
    } else {
        let (s, out) = played(window, turns.drop_last());
        let (t, more) = turned(s, turns.last());
        (t, out + more)
    }
}

/// The packets that were taken in.
pub open spec fn taken(window: nat, turns: Seq<Turn>) -> Seq<PacketView>
    decreases turns.len(),
{
    if turns.len() == 0 {
        Seq::empty()
    } else {
        let before = taken(window, turns.drop_last());
        match turns.last() {
            Turn::Push(p) if played(window, turns.drop_last()).0.accepts(p.sequence) => before.push(
                p,
            ),
            _ => before,
        }
    }
}

/// How far on from one packet handed on the next one is.
pub open spec fn gap(out: Seq<PacketView>, i: int) -> int {
    ahead(out[i + 1].sequence, out[i].sequence)
}

/// The packets missing between those handed on.
pub open spec fn missing(out: Seq<PacketView>) -> int
    decreases out.len(),
{
    if out.len() < 2 {
        0
    } else {
        missing(out.drop_last()) + gap(out, out.len() - 2) - 1
    }
}

/// What every turn keeps of a stream without flushes: what is due comes after
/// what was handed on last, which is in order, and what is counted as lost is
/// what is missing in it.
spec fn sound(s: ReorderState, out: Seq<PacketView>) -> bool {
    &&& ordered(s)
    &&& s.next == if out.len() == 0 {
        None
    } else {
        Some(next_seq(out.last().sequence))
    }
    &&& forall|i: int| 0 <= i < out.len() - 1 ==> 1 <= #[trigger] gap(out, i) <= 0x8000
    &&& s.lost as int == missing(out) % 0x1_0000_0000_0000_0000
}

#[verifier::spinoff_prover]
#[verifier::rlimit(60)]
proof fn lemma_step_is_sound(s: ReorderState, out: Seq<PacketView>)
    requires
        sound(s, out),
        s.held.len() > 0,
    ensures
        sound(stepped(s), out.push(s.held[0])),
{
    let t = stepped(s);
    let h = s.held[0].sequence;
    let more = out.push(s.held[0]);
    lemma_step_keeps_order(s);
    assert(more.drop_last() =~= out);
    assert forall|i: int| 0 <= i < more.len() - 1 implies 1 <= #[trigger] gap(more, i) <= 0x8000 by {
        if i < out.len() - 1 {
            assert(gap(more, i) == gap(out, i));
        } else {
            assert(ahead(s.held[0].sequence, s.next.unwrap()) < 0x8000);
        }
    }
    if out.len() > 0 {
        let n = s.next.unwrap();
        let skipped = ahead(h, n);
        assert(ahead(s.held[0].sequence, n) < 0x8000);
        assert(gap(more, more.len() - 2) == skipped + 1);
        assert(n == h ==> skipped == 0);
        assert(missing(more) == missing(out) + skipped);
        lemma_counted(s.lost, missing(out), skipped);
    } else {
        assert(missing(more) == 0);
        lemma_counted(s.lost, 0, 0);
    }
}

proof fn lemma_counted(lost: u64, a: int, b: int)
    requires
        lost as int == a % 0x1_0000_0000_0000_0000,
        0 <= b < 0x8000,
    ensures
        vstd::wrapping::u64_specs::wrapping_add(lost, b as u64) as int == (a + b)
            % 0x1_0000_0000_0000_0000,
{
}

proof fn lemma_drain_is_sound(s: ReorderState, out: Seq<PacketView>)
    requires
        sound(s, out),
    ensures
        sound(drain(s).0, out + drain(s).1),
    decreases s.held.len(),
{
    lemma_drain_steps(s);
    if gives(s) {
        let t = stepped(s);
        let more = out.push(s.held[0]);
        lemma_step_is_sound(s, out);
        lemma_drain_is_sound(t, more);
        assert(out + drain(s).1 =~= more + drain(t).1);
    } else {
        assert(out + drain(s).1 =~= out);
    }
}

/// Whether all turns are packets.
pub open spec fn all_pushes(turns: Seq<Turn>) -> bool {
    forall|i: int| 0 <= i < turns.len() ==> (#[trigger] turns[i]) is Push
}

proof fn lemma_played_is_sound(window: nat, turns: Seq<Turn>)
    requires
        all_pushes(turns),
    ensures
        sound(played(window, turns).0, played(window, turns).1),
        played(window, turns).0.next is None ==> played(window, turns).0.held.len() == 0,
    decreases turns.len(),
{
    if turns.len() > 0 {
        let before = turns.drop_last();
        assert(turns.last() is Push);
        assert(all_pushes(before)) by {
            assert forall|i: int| 0 <= i < before.len() implies (#[trigger] before[i]) is Push by {
                assert(turns[i] is Push);
            }
        }
        lemma_played_is_sound(window, before);
        let (s, out) = played(window, before);
        let p = turns.last()->Push_0;
        if s.accepts(p.sequence) {
            lemma_insert_keeps_order(s, p);
            let t = ReorderState { held: inserted(s.held, p), ..s };
            lemma_drain_is_sound(t, out);
            lemma_drain_steps(t);
            lemma_slot(s.held, p.sequence, 0);
            lemma_next_stays(stepped(t));
        } else {
            assert(out + pushed(s, p).1 =~= out);
        }
    }
}

proof fn lemma_next_stays(s: ReorderState)
    requires
        s.next is Some,
    ensures
        drain(s).0.next is Some,
    decreases s.held.len(),
{
    lemma_drain_steps(s);
    if gives(s) {
        lemma_next_stays(stepped(s));
    }
}

/// Every turn leaves the window in order, whatever came before.
proof fn lemma_played_is_ordered(window: nat, turns: Seq<Turn>)
    ensures
        ordered(played(window, turns).0),
        played(window, turns).0.next is None ==> played(window, turns).0.held.len() == 0,
    decreases turns.len(),
{
    if turns.len() > 0 {
        lemma_played_is_ordered(window, turns.drop_last());
        let s = played(window, turns.drop_last()).0;
        if let Turn::Push(p) = turns.last() {
            if s.accepts(p.sequence) {
                lemma_insert_keeps_order(s, p);
                let t = ReorderState { held: inserted(s.held, p), ..s };
                lemma_drain_keeps_order(t);
                lemma_drain_steps(t);
                lemma_slot(s.held, p.sequence, 0);
                lemma_next_stays(stepped(t));
            }
        }
    }
}

// ---- laws ----

/// Whatever arrives, and in whatever order, packets are handed on in order, going
/// round with the sequence numbers, and none twice; and what is counted as lost
/// is exactly what is missing between them, counted in 64 bits. No more are held
/// back than the window allows.
pub proof fn law_a_stream_comes_out_in_order(window: nat, turns: Seq<Turn>)
    requires
        all_pushes(turns),
    ensures
        ({
            let (s, out) = played(window, turns);
            &&& forall|i: int| 0 <= i < out.len() - 1 ==> 1 <= #[trigger] gap(out, i) <= 0x8000
            &&& s.lost as int == missing(out) % 0x1_0000_0000_0000_0000
            &&& s.held.len() <= window
        }),
{
    lemma_played_is_sound(window, turns);
    lemma_window(window, turns);
}

proof fn lemma_window(window: nat, turns: Seq<Turn>)
    ensures
        played(window, turns).0.held.len() <= window,
        played(window, turns).0.window == window,
    decreases turns.len(),
{
    if turns.len() > 0 {
        lemma_window(window, turns.drop_last());
        let s = played(window, turns.drop_last()).0;
        if let Turn::Push(p) = turns.last() {
            law_held_stays_within_window(ReorderState { held: inserted(s.held, p), ..s });
        }
    }
}

/// A stream in which nothing is missing has no losses.
pub proof fn law_no_gap_is_no_loss(window: nat, turns: Seq<Turn>)
    requires
        all_pushes(turns),
        forall|i: int|
            0 <= i < played(window, turns).1.len() - 1 ==> #[trigger] gap(
                played(window, turns).1,
                i,
            ) == 1,
    ensures
        played(window, turns).0.lost == 0,
{
    let out = played(window, turns).1;
    lemma_played_is_sound(window, turns);
    lemma_none_missing(out);
}

proof fn lemma_none_missing(out: Seq<PacketView>)
    requires
        forall|i: int| 0 <= i < out.len() - 1 ==> #[trigger] gap(out, i) == 1,
    ensures
        missing(out) == 0,
    decreases out.len(),
{
    if out.len() >= 2 {
        let less = out.drop_last();
        assert forall|i: int| 0 <= i < less.len() - 1 implies #[trigger] gap(less, i) == 1 by {
            assert(gap(out, i) == 1);
        }
        lemma_none_missing(less);
        assert(gap(out, out.len() - 2) == 1);
    }
}

proof fn lemma_moved<A>(
    out: Multiset<A>,
    more: Multiset<A>,
    left: Multiset<A>,
    held: Multiset<A>,
    p: A,
)
    requires
        more.add(left) == held.insert(p),
    ensures
        out.add(more).add(left) == out.add(held).insert(p),
{
    broadcast use vstd::multiset::group_multiset_axioms;

    let one = Multiset::singleton(p);
    assert(more.add(left) == held.add(one));
    assert forall|v: A| #[trigger]
        out.add(more).add(left).count(v) == out.add(held).add(one).count(v) by {
        assert(more.add(left).count(v) == more.count(v) + left.count(v));
        assert(held.add(one).count(v) == held.count(v) + one.count(v));
    }
    assert(out.add(more).add(left) =~= out.add(held).add(one));
}

/// Every packet that is taken in is handed on once, unchanged, or still held,
/// whatever is pushed and flushed.
pub proof fn law_every_packet_is_accounted_for(window: nat, turns: Seq<Turn>)
    ensures
        played(window, turns).1.to_multiset().add(played(window, turns).0.held.to_multiset())
            == taken(window, turns).to_multiset(),
    decreases turns.len(),
{
    broadcast use vstd::seq_lib::group_to_multiset_ensures;

    if turns.len() == 0 {
        assert(played(window, turns).1.to_multiset().add(
            played(window, turns).0.held.to_multiset(),
        ) =~= taken(window, turns).to_multiset());
    } else {
        law_every_packet_is_accounted_for(window, turns.drop_last());
        let (s, out) = played(window, turns.drop_last());
        let before = taken(window, turns.drop_last());
        let (t, more) = turned(s, turns.last());
        vstd::seq_lib::lemma_multiset_commutative(out, more);
        match turns.last() {
            Turn::Push(p) => {
                if s.accepts(p.sequence) {
                    law_push_keeps_every_packet(s, p);
                    lemma_slot(s.held, p.sequence, 0);
                    vstd::seq_lib::to_multiset_insert(s.held, slot(s.held, p.sequence, 0), p);
                    vstd::seq_lib::lemma_multiset_commutative(more, t.held);
                    assert(more.to_multiset().add(t.held.to_multiset()) == s.held.to_multiset().insert(
                        p,
                    ));
                    vstd::seq_lib::to_multiset_build(before, p);
                    lemma_moved(
                        out.to_multiset(),
                        more.to_multiset(),
                        t.held.to_multiset(),
                        s.held.to_multiset(),
                        p,
                    );
                } else {
                    assert(out + more =~= out);
                }
            },
            Turn::Flush => {
                assert((out + more).to_multiset().add(t.held.to_multiset())
                    =~= before.to_multiset());
            },
        }
    }
}

/// Every packet that is handed on, or held, is one that was pushed, unchanged.
pub proof fn law_nothing_is_made_up(window: nat, turns: Seq<Turn>, p: PacketView)
    requires
        played(window, turns).1.contains(p) || played(window, turns).0.held.contains(p),
    ensures
        turns.contains(Turn::Push(p)),
{
    broadcast use vstd::seq_lib::group_to_multiset_ensures;

    law_every_packet_is_accounted_for(window, turns);
    let (s, out) = played(window, turns);
    let m = out.to_multiset().add(s.held.to_multiset());
    assert(m.count(p) > 0);
    assert(taken(window, turns).contains(p));
    lemma_taken_was_pushed(window, turns, p);
}

proof fn lemma_taken_was_pushed(window: nat, turns: Seq<Turn>, p: PacketView)
    requires
        taken(window, turns).contains(p),
    ensures
        turns.contains(Turn::Push(p)),
    decreases turns.len(),
{
    if turns.len() > 0 {
        let less = turns.drop_last();
        if turns.last() == Turn::Push(p) {
            assert(turns[turns.len() - 1] == Turn::Push(p));
        } else {
            assert(taken(window, less).contains(p)) by {
                let all = taken(window, turns);
                let k = choose|k: int| 0 <= k < all.len() && all[k] == p;
                assert(taken(window, less)[k] == p);
            }
            lemma_taken_was_pushed(window, less, p);
            let k = choose|k: int| 0 <= k < less.len() && less[k] == Turn::Push(p);
            assert(turns[k] == Turn::Push(p));
        }
    }
}

/// The end of a stream hands on everything still held, in order, and counts
/// nothing as lost. A second end brings nothing, and neither does a packet with
/// the number of one that was just handed on.
#[verifier::spinoff_prover]
#[verifier::rlimit(60)]
pub proof fn law_the_end_releases_everything(window: nat, turns: Seq<Turn>, p: PacketView)
    ensures
        ({
            let s = played(window, turns).0;
            let (t, out) = flushed(s);
            &&& out == s.held
            &&& forall|i: int| 0 <= i < out.len() - 1 ==> 1 <= #[trigger] gap(out, i) < 0x8000
            &&& t.lost == s.lost
            &&& flushed(t) == (t, Seq::<PacketView>::empty())
            &&& holds(out, p.sequence) ==> pushed(t, p) == (t, Seq::<PacketView>::empty())
        }),
{
    lemma_played_is_ordered(window, turns);
    let s = played(window, turns).0;
    let (t, out) = flushed(s);
    assert(flushed(t).0 =~= t);
    if let Some(n) = s.next {
        assert forall|i: int| 0 <= i < out.len() - 1 implies 1 <= #[trigger] gap(out, i) < 0x8000 by {
            let (a, b) = (s.held[i].sequence, s.held[i + 1].sequence);
            assert(ahead(s.held[i].sequence, n) < ahead(s.held[i + 1].sequence, n));
            assert(ahead(s.held[i + 1].sequence, n) < 0x8000);
            lemma_apart(n, a, b);
        }
        if holds(out, p.sequence) {
            lemma_released_is_late(s, n, p.sequence);
        }
    }
}

/// Two packets that come after the one that is due, the second not before the
/// first.
proof fn lemma_apart(n: u16, a: u16, b: u16)
    requires
        ahead(a, n) <= ahead(b, n) < 0x8000,
    ensures
        ahead(b, a) == ahead(b, n) - ahead(a, n),
        !at_or_after(a, next_seq(b)),
{
}

proof fn lemma_released_is_late(s: ReorderState, n: u16, q: u16)
    requires
        ordered(s),
        s.next == Some(n),
        holds(s.held, q),
    ensures
        !at_or_after(q, next_seq(s.held.last().sequence)),
{
    let k = choose|k: int| 0 <= k < s.held.len() && (#[trigger] s.held[k]).sequence == q;
    let last = s.held.len() - 1;
    assert(ahead(s.held[k].sequence, n) <= ahead(s.held[last].sequence, n));
    assert(ahead(s.held[last].sequence, n) < 0x8000);
    lemma_apart(n, q, s.held[last].sequence);
}

} // verus!
