//! The working `wpa_supplicant` configuration, which has to be writable.
//!
//! `P2P_GROUP_ADD persistent` builds a persistent group, but the supplicant can
//! only keep it across restarts if it may write its configuration file back:
//! with `update_config=0` the group lives in memory and dies with the process,
//! so every start invents a fresh SSID and passphrase. A source that paired
//! once then holds credentials for a group that no longer exists, and sits on
//! "connecting" forever with nothing arriving at the sink to explain why.
//!
//! The deployed file is root-owned and replaced on every deploy, so it stays
//! the template. This module derives a working copy the sink's user can write,
//! and re-derives it when the template changes without losing the stored
//! groups - which are the whole point of the exercise.
use vstd::prelude::*;
use crate::miracast::rtsp_laws::lacks;
use crate::text::{
    find_from, has_prefix, is_str, is_white_space, lemma_find_from, lemma_find_from_is, lines,
    lines_from, lines_of, push_chars, push_str, rest, skip_from, starts_with, strip_cr, texts,
    to_chars, to_string, trim, trim_of, trim_start, trim_start_of,
};

verus! {

// ---- the model ----

/// The lines from `i` on, each with a line feed after it.
pub open spec fn ended(ls: Seq<Seq<char>>, i: int) -> Seq<char>
    decreases ls.len() - i,
{
    if i >= ls.len() {
        Seq::empty()
    } else {
        ls[i] + "\n"@ + ended(ls, i + 1)
    }
}

/// Whether a line says whether the configuration may be written.
pub open spec fn is_update_line(l: Seq<char>) -> bool {
    has_prefix(trim_start(l), "update_config="@)
}

/// The line as it stands in the working copy.
pub open spec fn adjusted(l: Seq<char>) -> Seq<char> {
    if is_update_line(l) {
        "update_config=1"@
    } else {
        l
    }
}

pub open spec fn adjusted_lines(ls: Seq<Seq<char>>) -> Seq<Seq<char>> {
    Seq::new(ls.len(), |i: int| adjusted(ls[i]))
}

/// Whether any of the lines says whether the configuration may be written.
pub open spec fn has_update_line(ls: Seq<Seq<char>>) -> bool {
    exists|i: int| 0 <= i < ls.len() && is_update_line(#[trigger] ls[i])
}

/// The lines of the working copy: those of the template, with writing allowed.
pub open spec fn working_lines(ls: Seq<Seq<char>>) -> Seq<Seq<char>> {
    adjusted_lines(ls) + (if has_update_line(ls) {
        Seq::empty()
    } else {
        seq!["update_config=1"@]
    })
}

/// The working copy of a template.
pub open spec fn working_text(template: Seq<char>) -> Seq<char> {
    ended(working_lines(lines(template)), 0)
}

/// Whether a line begins a network block.
pub open spec fn opens_block(l: Seq<char>) -> bool {
    has_prefix(trim_start(l), "network="@)
}

/// Whether a line ends a network block.
pub open spec fn closes_block(l: Seq<char>) -> bool {
    trim(l) == "}"@
}

/// The network blocks, as lines, that the lines from `i` on hold, given the
/// block that is open. A block that is never closed is none.
pub open spec fn groups_from(
    ls: Seq<Seq<char>>,
    i: int,
    open: Option<Seq<Seq<char>>>,
) -> Seq<Seq<Seq<char>>>
    decreases ls.len() - i,
{
    if i >= ls.len() {
        Seq::empty()
    } else {
        match open {
            None => if opens_block(ls[i]) {
                groups_from(ls, i + 1, Some(seq![ls[i]]))
            } else {
                groups_from(ls, i + 1, None)
            },
            Some(b) => if closes_block(ls[i]) {
                seq![b.push(ls[i])] + groups_from(ls, i + 1, None)
            } else {
                groups_from(ls, i + 1, Some(b.push(ls[i])))
            },
        }
    }
}

/// The network blocks of a configuration, as lines.
pub open spec fn groups(conf: Seq<char>) -> Seq<Seq<Seq<char>>> {
    groups_from(lines(conf), 0, None)
}

/// The text of each block.
pub open spec fn block_texts(gs: Seq<Seq<Seq<char>>>) -> Seq<Seq<char>> {
    Seq::new(gs.len(), |i: int| ended(gs[i], 0))
}

/// The texts from `i` on, one after the other.
pub open spec fn together(ts: Seq<Seq<char>>, i: int) -> Seq<char>
    decreases ts.len() - i,
{
    if i >= ts.len() {
        Seq::empty()
    } else {
        ts[i] + together(ts, i + 1)
    }
}

/// The texts that a list of strings holds.
pub open spec fn strings(v: Seq<String>) -> Seq<Seq<char>> {
    Seq::new(v.len(), |i: int| v[i]@)
}

/// One more line at the end.
pub proof fn lemma_ended_push(ls: Seq<Seq<char>>, l: Seq<char>, i: int)
    requires
        0 <= i <= ls.len(),
    ensures
        ended(ls.push(l), i) == ended(ls, i) + l + "\n"@,
    decreases ls.len() - i,
{
    let m = ls.push(l);
    if i == ls.len() {
        assert(ended(m, i + 1) =~= Seq::empty());
        assert(ended(m, i) =~= ended(ls, i) + l + "\n"@);
    } else {
        lemma_ended_push(ls, l, i + 1);
        assert(m[i] == ls[i]);
        assert(ended(m, i) =~= ended(ls, i) + l + "\n"@);
    }
}

// ---- the code ----

/// Turns the deployed template into the working configuration: the same
/// settings, but writable, so the supplicant can save a persistent group.
pub fn from_template(template: &str) -> (r: String)
    ensures
        r@ == working_text(template@),
{
    to_string(&working_chars(template))
}

fn working_chars(template: &str) -> (out: Vec<char>)
    ensures
        out@ == working_text(template@),
{
    let a = to_chars(template);
    let ls = lines_of(&a);
    let ghost all = lines(template@);
    let mut out: Vec<char> = Vec::new();
    let mut seen = false;
    let mut i: usize = 0;
    assert(adjusted_lines(all).take(0) =~= Seq::empty());
    while i < ls.len()
        invariant
            i <= ls@.len(),
            texts(ls@) == all,
            out@ == ended(adjusted_lines(all).take(i as int), 0),
            seen <==> exists|j: int| 0 <= j < i && is_update_line(#[trigger] all[j]),
        decreases ls@.len() - i,
    {
        assert(all[i as int] == ls@[i as int]@);
        let ghost before = adjusted_lines(all).take(i as int);
        if starts_with(trim_start_of(&ls[i]), "update_config=") {
            seen = true;
            push_str(&mut out, "update_config=1");
        } else {
            push_chars(&mut out, &ls[i]);
        }
        push_str(&mut out, "\n");
        proof {
            lemma_ended_push(before, adjusted(all[i as int]), 0);
            assert(adjusted_lines(all).take(i + 1) =~= before.push(adjusted(all[i as int])));
        }
        i = i + 1;
    }
    assert(adjusted_lines(all).take(i as int) =~= adjusted_lines(all));
    if !seen {
        proof {
            lemma_ended_push(adjusted_lines(all), "update_config=1"@, 0);
            assert(working_lines(all) =~= adjusted_lines(all).push("update_config=1"@));
        }
        push_str(&mut out, "update_config=1");
        push_str(&mut out, "\n");
    } else {
        assert(working_lines(all) =~= adjusted_lines(all));
    }
    out
}

/// The `network={...}` blocks of a configuration, verbatim, in order.
///
/// These hold the persistent group's SSID and passphrase. The supplicant
/// writes them itself, so they must survive a template change untouched.
pub fn network_blocks(conf: &str) -> (blocks: Vec<String>)
    ensures
        strings(blocks@) == block_texts(groups(conf@)),
{
    let a = to_chars(conf);
    let ls = lines_of(&a);
    let ghost all = lines(conf@);
    let ghost mut open: Option<Seq<Seq<char>>> = None;
    let mut blocks: Vec<String> = Vec::new();
    let mut in_block = false;
    let mut current: Vec<char> = Vec::new();
    let mut i: usize = 0;
    let ghost whole = block_texts(groups(conf@));
    assert(strings(blocks@) + block_texts(groups_from(all, 0, None)) =~= whole);
    while i < ls.len()
        invariant
            i <= ls@.len(),
            texts(ls@) == all,
            in_block == (open is Some),
            open matches Some(b) ==> current@ == ended(b, 0),
            strings(blocks@) + block_texts(groups_from(all, i as int, open)) == whole,
        decreases ls@.len() - i,
    {
        assert(all[i as int] == ls@[i as int]@);
        let ghost l = all[i as int];
        let ghost given = strings(blocks@);
        if !in_block {
            if starts_with(trim_start_of(&ls[i]), "network=") {
                current = Vec::new();
                push_chars(&mut current, &ls[i]);
                push_str(&mut current, "\n");
                in_block = true;
                proof {
                    lemma_ended_push(Seq::empty(), l, 0);
                    assert(Seq::<Seq<char>>::empty().push(l) =~= seq![l]);
                    assert(ended(Seq::<Seq<char>>::empty(), 0) + l =~= l);
                    assert(current@ =~= ended(seq![l], 0));
                    open = Some(seq![l]);
                }
            }
        } else {
            push_chars(&mut current, &ls[i]);
            push_str(&mut current, "\n");
            let ghost b = open.unwrap();
            proof {
                lemma_ended_push(b, l, 0);
            }
            if is_str(trim_of(&ls[i]), "}") {
                blocks.push(to_string(&current));
                in_block = false;
                proof {
                    let after = groups_from(all, i + 1, None);
                    assert(strings(blocks@) =~= given.push(ended(b.push(l), 0)));
                    assert(block_texts(seq![b.push(l)] + after) =~= seq![ended(b.push(l), 0)]
                        + block_texts(after));
                    assert(strings(blocks@) + block_texts(after) =~= given + (seq![
                        ended(b.push(l), 0),
                    ] + block_texts(after)));
                    open = None;
                }
            } else {
                proof {
                    open = Some(b.push(l));
                }
            }
        }
        i = i + 1;
    }
    assert(strings(blocks@) =~= whole);
    blocks
}

/// The configuration to write when the template has changed: the new settings,
/// carrying over the groups the old working copy had learned.
pub fn reseed(template: &str, existing: &str) -> (r: String)
    ensures
        r@ == working_text(template@) + together(block_texts(groups(existing@)), 0),
{
    let mut out = working_chars(template);
    let blocks = network_blocks(existing);
    let ghost head = out@;
    let ghost all = block_texts(groups(existing@));
    let mut i: usize = 0;
    assert(out@ + together(all, 0) =~= head + together(all, 0));
    while i < blocks.len()
        invariant
            i <= blocks@.len(),
            strings(blocks@) == all,
            out@ + together(all, i as int) == head + together(all, 0),
        decreases blocks@.len() - i,
    {
        let ghost before = out@;
        assert(all[i as int] == blocks@[i as int]@);
        push_str(&mut out, &blocks[i]);
        assert(out@ + together(all, i + 1) =~= before + together(all, i as int));
        i = i + 1;
    }
    assert(out@ =~= head + together(all, 0));
    to_string(&out)
}

// ---- laws ----

/// Whether a line can be written and read back: it has no ending in it.
pub open spec fn one_line(l: Seq<char>) -> bool {
    lacks(l, '\n') && lacks(l, '\r')
}

/// Lines written one after the other are read as those lines.
pub proof fn lemma_lines_of_ended(pre: Seq<char>, ls: Seq<Seq<char>>, i: int)
    requires
        0 <= i <= ls.len(),
        forall|k: int| 0 <= k < ls.len() ==> one_line(#[trigger] ls[k]),
    ensures
        lines_from(pre + ended(ls, i), pre.len() as int) == ls.skip(i),
    decreases ls.len() - i,
{
    reveal_strlit("\n");
    let s = pre + ended(ls, i);
    let a = pre.len() as int;
    if i == ls.len() {
        assert(ls.skip(i) =~= Seq::empty());
    } else {
        let l = ls[i];
        assert(one_line(l));
        let b = a + l.len();
        assert(s[b] == '\n');
        assert forall|j: int| a <= j < b implies s[j] != '\n' by {
            assert(s[j] == l[j - a]);
        }
        lemma_find_from_is(s, '\n', a, b);
        assert(s.subrange(a, b) =~= l);
        assert(strip_cr(l) == l);
        let pre2 = pre + l + "\n"@;
        assert(s =~= pre2 + ended(ls, i + 1));
        lemma_lines_of_ended(pre2, ls, i + 1);
        assert(ls.skip(i) =~= seq![l] + ls.skip(i + 1));
    }
}

/// The lines of a text without carriage returns have no endings in them.
proof fn lemma_lines_are_lines(s: Seq<char>, i: int)
    requires
        0 <= i <= s.len(),
        lacks(s, '\r'),
    ensures
        forall|k: int| 0 <= k < lines_from(s, i).len() ==> one_line(#[trigger] lines_from(s, i)[k]),
    decreases s.len() - i,
{
    if i < s.len() {
        lemma_find_from(s, '\n', i);
        let j = find_from(s, '\n', i);
        if j >= s.len() {
            assert(one_line(rest(s, i)));
        } else {
            lemma_lines_are_lines(s, j + 1);
            let l = s.subrange(i, j);
            assert(one_line(l));
            assert(strip_cr(l) == l);
            let all = lines_from(s, i);
            let more = lines_from(s, j + 1);
            assert(all =~= seq![l] + more);
            assert forall|k: int| 0 <= k < all.len() implies one_line(#[trigger] all[k]) by {
                if k > 0 {
                    assert(all[k] == more[k - 1]);
                }
            }
        }
    }
}

proof fn lemma_update_line()
    ensures
        is_update_line("update_config=1"@),
        !opens_block("update_config=1"@),
        one_line("update_config=1"@),
{
    reveal_strlit("update_config=1");
    reveal_strlit("update_config=");
    reveal_strlit("network=");
    let u = "update_config=1"@;
    assert(!is_white_space(u[0]));
    assert(trim_start(u) =~= u);
    assert(u.subrange(0, 14) =~= "update_config="@);
    assert(u.subrange(0, 8)[0] == 'u');
    assert("network="@[0] == 'n');
}

/// The lines of the working copy are the lines it was written from.
proof fn lemma_working_lines_read_back(template: Seq<char>)
    requires
        lacks(template, '\r'),
    ensures
        lines(working_text(template)) == working_lines(lines(template)),
        forall|k: int|
            0 <= k < working_lines(lines(template)).len() ==> one_line(
                #[trigger] working_lines(lines(template))[k],
            ),
{
    let ls = lines(template);
    let ws = working_lines(ls);
    lemma_lines_are_lines(template, 0);
    lemma_update_line();
    assert forall|k: int| 0 <= k < ws.len() implies one_line(#[trigger] ws[k]) by {
        if k < ls.len() {
            assert(one_line(ls[k]));
            assert(ws[k] == adjusted(ls[k]));
        } else {
            assert(ws[k] == "update_config=1"@);
        }
    }
    lemma_lines_of_ended(Seq::empty(), ws, 0);
    assert(Seq::<char>::empty() + ended(ws, 0) =~= ended(ws, 0));
    assert(ws.skip(0) =~= ws);
}

/// Deriving the working copy again from itself changes nothing, so the sink
/// does not rewrite the file, and restart pairing, on every start. The template
/// must not hold carriage returns: one before a carriage return and line feed
/// is taken for part of the ending the second time.
pub proof fn law_the_working_copy_is_stable(template: Seq<char>)
    requires
        lacks(template, '\r'),
    ensures
        working_text(working_text(template)) == working_text(template),
{
    lemma_working_lines_read_back(template);
    lemma_update_line();
    let ls = lines(template);
    let ws = working_lines(ls);
    assert forall|k: int| 0 <= k < ws.len() implies adjusted(#[trigger] ws[k]) == ws[k] by {
        if k < ls.len() {
            assert(ws[k] == adjusted(ls[k]));
        } else {
            assert(ws[k] == "update_config=1"@);
        }
    }
    assert(has_update_line(ws)) by {
        if has_update_line(ls) {
            let k = choose|k: int| 0 <= k < ls.len() && is_update_line(#[trigger] ls[k]);
            assert(ws[k] == "update_config=1"@);
            assert(is_update_line(ws[k]));
        } else {
            assert(ws[ls.len() as int] == "update_config=1"@);
            assert(is_update_line(ws[ls.len() as int]));
        }
    }
    assert(adjusted_lines(ws) =~= ws);
    assert(working_lines(ws) =~= ws);
}

/// The working copy always lets the supplicant save, and every setting of the
/// template but that one stands in it unchanged and in its place.
pub proof fn law_the_working_copy_keeps_the_settings(ls: Seq<Seq<char>>)
    ensures
        has_update_line(working_lines(ls)),
        forall|k: int|
            0 <= k < working_lines(ls).len() && is_update_line(#[trigger] working_lines(ls)[k])
                ==> working_lines(ls)[k] == "update_config=1"@,
        forall|k: int|
            0 <= k < ls.len() && !is_update_line(#[trigger] ls[k]) ==> working_lines(ls)[k]
                == ls[k],
{
    lemma_update_line();
    let ws = working_lines(ls);
    if has_update_line(ls) {
        let k = choose|k: int| 0 <= k < ls.len() && is_update_line(#[trigger] ls[k]);
        assert(ws[k] == adjusted(ls[k]));
        assert(is_update_line(ws[k]));
    } else {
        assert(ws[ls.len() as int] == "update_config=1"@);
        assert(is_update_line(ws[ls.len() as int]));
    }
    assert forall|k: int| 0 <= k < ws.len() && is_update_line(#[trigger] ws[k]) implies ws[k]
        == "update_config=1"@ by {
        if k < ls.len() {
            assert(ws[k] == adjusted(ls[k]));
        }
    }
    assert forall|k: int| 0 <= k < ls.len() && !is_update_line(#[trigger] ls[k]) implies ws[k]
        == ls[k] by {
        assert(ws[k] == adjusted(ls[k]));
    }
}

/// Whether lines are one whole block: opened by the first, closed by the last
/// and by none before it.
pub open spec fn whole_block(g: Seq<Seq<char>>) -> bool {
    &&& g.len() >= 2
    &&& opens_block(g[0])
    &&& closes_block(g.last())
    &&& forall|k: int| 1 <= k < g.len() - 1 ==> !closes_block(#[trigger] g[k])
    &&& forall|k: int| 0 <= k < g.len() ==> one_line(#[trigger] g[k])
}

/// Whether lines are the beginning of a block.
pub open spec fn open_block(g: Seq<Seq<char>>) -> bool {
    &&& g.len() >= 1
    &&& opens_block(g[0])
    &&& forall|k: int| 1 <= k < g.len() ==> !closes_block(#[trigger] g[k])
    &&& forall|k: int| 0 <= k < g.len() ==> one_line(#[trigger] g[k])
}

proof fn lemma_groups_are_blocks(ls: Seq<Seq<char>>, i: int, open: Option<Seq<Seq<char>>>)
    requires
        0 <= i,
        forall|k: int| 0 <= k < ls.len() ==> one_line(#[trigger] ls[k]),
        open matches Some(b) ==> open_block(b),
    ensures
        forall|k: int|
            0 <= k < groups_from(ls, i, open).len() ==> whole_block(
                #[trigger] groups_from(ls, i, open)[k],
            ),
    decreases ls.len() - i,
{
    if i < ls.len() {
        assert(one_line(ls[i]));
        match open {
            None => {
                if opens_block(ls[i]) {
                    assert(open_block(seq![ls[i]]));
                    lemma_groups_are_blocks(ls, i + 1, Some(seq![ls[i]]));
                    assert(groups_from(ls, i, open) == groups_from(ls, i + 1, Some(seq![ls[i]])));
                } else {
                    lemma_groups_are_blocks(ls, i + 1, None);
                    assert(groups_from(ls, i, open) == groups_from(ls, i + 1, None));
                }
            },
            Some(b) => {
                let c = b.push(ls[i]);
                if closes_block(ls[i]) {
                    lemma_groups_are_blocks(ls, i + 1, None);
                    assert forall|k: int| 1 <= k < c.len() - 1 implies !closes_block(
                        #[trigger] c[k],
                    ) by {
                        assert(c[k] == b[k]);
                    }
                    assert forall|k: int| 0 <= k < c.len() implies one_line(#[trigger] c[k]) by {
                        if k < b.len() {
                            assert(c[k] == b[k]);
                        }
                    }
                    assert(c[0] == b[0]);
                    assert(whole_block(c));
                    let all = groups_from(ls, i, open);
                    let more = groups_from(ls, i + 1, None);
                    assert forall|k: int| 0 <= k < all.len() implies whole_block(
                        #[trigger] all[k],
                    ) by {
                        if k > 0 {
                            assert(all[k] == more[k - 1]);
                        }
                    }
                } else {
                    assert forall|k: int| 1 <= k < c.len() implies !closes_block(#[trigger] c[k]) by {
                        if k < b.len() {
                            assert(c[k] == b[k]);
                        }
                    }
                    assert forall|k: int| 0 <= k < c.len() implies one_line(#[trigger] c[k]) by {
                        if k < b.len() {
                            assert(c[k] == b[k]);
                        }
                    }
                    assert(c[0] == b[0]);
                    assert(open_block(c));
                    lemma_groups_are_blocks(ls, i + 1, Some(c));
                    assert(groups_from(ls, i, open) == groups_from(ls, i + 1, Some(c)));
                }
            },
        }
    }
}

/// The lines of the blocks from `i` on.
pub open spec fn flat(gs: Seq<Seq<Seq<char>>>, i: int) -> Seq<Seq<char>>
    decreases gs.len() - i,
{
    if i >= gs.len() {
        Seq::empty()
    } else {
        gs[i] + flat(gs, i + 1)
    }
}

/// The rest of a block, once it is open, is read to its end.
proof fn lemma_block_is_read(pre: Seq<Seq<char>>, g: Seq<Seq<char>>, post: Seq<Seq<char>>, k: int)
    requires
        whole_block(g),
        1 <= k < g.len(),
    ensures
        groups_from(pre + g + post, pre.len() + k, Some(g.take(k))) == seq![g] + groups_from(
            pre + g + post,
            (pre.len() + g.len()) as int,
            None,
        ),
    decreases g.len() - k,
{
    let ls = pre + g + post;
    let i = pre.len() + k;
    assert(ls[i] == g[k]);
    assert(g.take(k).push(g[k]) =~= g.take(k + 1));
    if k == g.len() - 1 {
        assert(g.take(k + 1) =~= g);
    } else {
        assert(!closes_block(g[k]));
        lemma_block_is_read(pre, g, post, k + 1);
    }
}

/// Blocks written one after the other, after lines that open none, are read as
/// those blocks.
proof fn lemma_groups_of_flat(pre: Seq<Seq<char>>, gs: Seq<Seq<Seq<char>>>, i: int)
    requires
        0 <= i <= gs.len(),
        forall|k: int| 0 <= k < gs.len() ==> whole_block(#[trigger] gs[k]),
    ensures
        groups_from(pre + flat(gs, i), pre.len() as int, None) == gs.skip(i),
    decreases gs.len() - i,
{
    let ls = pre + flat(gs, i);
    if i == gs.len() {
        assert(gs.skip(i) =~= Seq::empty());
    } else {
        let g = gs[i];
        assert(whole_block(g));
        assert(ls =~= pre + g + flat(gs, i + 1));
        assert(ls[pre.len() as int] == g[0]);
        assert(g.take(1) =~= seq![g[0]]);
        lemma_block_is_read(pre, g, flat(gs, i + 1), 1);
        lemma_groups_of_flat(pre + g, gs, i + 1);
        assert(gs.skip(i) =~= seq![g] + gs.skip(i + 1));
    }
}

proof fn lemma_skip_closed(ls: Seq<Seq<char>>, i: int, n: int)
    requires
        0 <= i <= n <= ls.len(),
        forall|k: int| i <= k < n ==> !opens_block(#[trigger] ls[k]),
    ensures
        groups_from(ls, i, None) == groups_from(ls, n, None),
    decreases n - i,
{
    if i < n {
        assert(!opens_block(ls[i]));
        lemma_skip_closed(ls, i + 1, n);
    }
}

proof fn lemma_ended_concat(a: Seq<Seq<char>>, b: Seq<Seq<char>>, i: int)
    requires
        0 <= i <= a.len(),
    ensures
        ended(a + b, i) == ended(a, i) + ended(b, 0),
    decreases a.len() - i,
{
    if i == a.len() {
        lemma_ended_shift(a, b, 0);
        assert(ended(a, i) + ended(b, 0) =~= ended(b, 0));
    } else {
        lemma_ended_concat(a, b, i + 1);
        assert((a + b)[i] == a[i]);
        assert(ended(a + b, i) =~= ended(a, i) + ended(b, 0));
    }
}

proof fn lemma_ended_shift(a: Seq<Seq<char>>, b: Seq<Seq<char>>, j: int)
    requires
        0 <= j <= b.len(),
    ensures
        ended(a + b, a.len() + j) == ended(b, j),
    decreases b.len() - j,
{
    if j < b.len() {
        lemma_ended_shift(a, b, j + 1);
        assert((a + b)[a.len() + j] == b[j]);
    }
}

proof fn lemma_together_is_flat(gs: Seq<Seq<Seq<char>>>, i: int)
    requires
        0 <= i <= gs.len(),
    ensures
        together(block_texts(gs), i) == ended(flat(gs, i), 0),
    decreases gs.len() - i,
{
    if i < gs.len() {
        lemma_together_is_flat(gs, i + 1);
        lemma_ended_concat(gs[i], flat(gs, i + 1), 0);
    }
}

proof fn lemma_flat_is_lines(gs: Seq<Seq<Seq<char>>>, i: int)
    requires
        0 <= i <= gs.len(),
        forall|k: int| 0 <= k < gs.len() ==> whole_block(#[trigger] gs[k]),
    ensures
        forall|k: int| 0 <= k < flat(gs, i).len() ==> one_line(#[trigger] flat(gs, i)[k]),
    decreases gs.len() - i,
{
    if i < gs.len() {
        lemma_flat_is_lines(gs, i + 1);
        let g = gs[i];
        assert(whole_block(g));
        let f = flat(gs, i);
        let more = flat(gs, i + 1);
        assert forall|k: int| 0 <= k < f.len() implies one_line(#[trigger] f[k]) by {
            if k < g.len() {
                assert(f[k] == g[k]);
            } else {
                assert(f[k] == more[k - g.len()]);
            }
        }
    }
}

/// A template change never costs a paired source its credentials: reseeding
/// keeps every stored group, verbatim and in order. Neither text may hold
/// carriage returns, and the template itself opens no block.
pub proof fn law_reseeding_keeps_the_groups(template: Seq<char>, existing: Seq<char>)
    requires
        lacks(template, '\r'),
        lacks(existing, '\r'),
        forall|k: int|
            0 <= k < lines(template).len() ==> !opens_block(#[trigger] lines(template)[k]),
    ensures
        groups(working_text(template) + together(block_texts(groups(existing)), 0)) == groups(
            existing,
        ),
{
    let ls = lines(template);
    let ws = working_lines(ls);
    let gs = groups(existing);
    let f = flat(gs, 0);
    lemma_working_lines_read_back(template);
    lemma_update_line();
    lemma_lines_are_lines(existing, 0);
    lemma_groups_are_blocks(lines(existing), 0, None);
    lemma_flat_is_lines(gs, 0);
    lemma_together_is_flat(gs, 0);
    let text = working_text(template) + together(block_texts(gs), 0);
    lemma_ended_concat(ws, f, 0);
    let all = ws + f;
    assert(text == ended(all, 0));
    assert forall|k: int| 0 <= k < all.len() implies one_line(#[trigger] all[k]) by {
        if k < ws.len() {
            assert(all[k] == ws[k]);
        } else {
            assert(all[k] == f[k - ws.len()]);
        }
    }
    lemma_lines_of_ended(Seq::empty(), all, 0);
    assert(Seq::<char>::empty() + text =~= text);
    assert(all.skip(0) =~= all);
    assert forall|k: int| 0 <= k < ws.len() implies !opens_block(#[trigger] all[k]) by {
        assert(all[k] == ws[k]);
        if k < ls.len() {
            assert(ws[k] == adjusted(ls[k]));
            assert(!opens_block(ls[k]));
        } else {
            assert(ws[k] == "update_config=1"@);
        }
    }
    lemma_skip_closed(all, 0, ws.len() as int);
    lemma_groups_of_flat(ws, gs, 0);
    assert(gs.skip(0) =~= gs);
}

/// The working copy lets the supplicant write: it has a line that says so, no line
/// that says otherwise, and every other line as it was.
pub proof fn law_the_working_copy_may_be_written(ls: Seq<Seq<char>>, i: int)
    requires
        0 <= i < working_lines(ls).len(),
    ensures
        working_lines(ls).contains("update_config=1"@),
        has_prefix(trim_start(working_lines(ls)[i]), "update_config="@) ==> working_lines(ls)[i]
            == "update_config=1"@,
        i < ls.len() && !has_prefix(trim_start(ls[i]), "update_config="@) ==> working_lines(ls)[i]
            == ls[i],
        ls.len() <= working_lines(ls).len() <= ls.len() + 1,
{
    let w = working_lines(ls);
    if has_update_line(ls) {
        let k = choose|k: int| 0 <= k < ls.len() && is_update_line(#[trigger] ls[k]);
        assert(w[k] == "update_config=1"@);
    } else {
        assert(w[ls.len() as int] == "update_config=1"@);
    }
    if i < ls.len() {
        assert(w[i] == adjusted(ls[i]));
    }
}

// ---- blocks ----

proof fn lemma_groups_shift(
    pre: Seq<Seq<char>>,
    ls: Seq<Seq<char>>,
    i: int,
    open: Option<Seq<Seq<char>>>,
)
    requires
        0 <= i <= ls.len(),
    ensures
        groups_from(pre + ls, pre.len() + i, open) == groups_from(ls, i, open),
    decreases ls.len() - i,
{
    if i < ls.len() {
        assert((pre + ls)[pre.len() + i] == ls[i]);
        match open {
            None => {
                lemma_groups_shift(pre, ls, i + 1, Some(seq![ls[i]]));
                lemma_groups_shift(pre, ls, i + 1, None);
            },
            Some(b) => {
                lemma_groups_shift(pre, ls, i + 1, None);
                lemma_groups_shift(pre, ls, i + 1, Some(b.push(ls[i])));
            },
        }
    }
}

proof fn lemma_passed_over(ls: Seq<Seq<char>>, i: int, k: int)
    requires
        0 <= i <= k <= ls.len(),
        forall|j: int| i <= j < k ==> !opens_block(#[trigger] ls[j]),
    ensures
        groups_from(ls, i, None) == groups_from(ls, k, None),
    decreases k - i,
{
    if i < k {
        lemma_passed_over(ls, i + 1, k);
    }
}

proof fn lemma_taken_in(ls: Seq<Seq<char>>, i: int, k: int, b: Seq<Seq<char>>)
    requires
        0 <= i <= k <= ls.len(),
        forall|j: int| i <= j < k ==> !closes_block(#[trigger] ls[j]),
    ensures
        groups_from(ls, i, Some(b)) == groups_from(ls, k, Some(b + ls.subrange(i, k))),
    decreases k - i,
{
    if i < k {
        lemma_taken_in(ls, i + 1, k, b.push(ls[i]));
        assert(b.push(ls[i]) + ls.subrange(i + 1, k) =~= b + ls.subrange(i, k));
    } else {
        assert(b + ls.subrange(i, k) =~= b);
    }
}

/// A block is the lines from one that begins with `network=` to the first closing
/// brace behind it, both of them included; lines before it belong to none, and the
/// blocks of what follows come after. Lines without such a beginning hold no block.
pub proof fn law_a_block_is_kept_whole(
    before: Seq<Seq<char>>,
    first: Seq<char>,
    inner: Seq<Seq<char>>,
    last: Seq<char>,
    after: Seq<Seq<char>>,
)
    requires
        forall|j: int|
            0 <= j < before.len() ==> !has_prefix(
                trim_start(#[trigger] before[j]),
                "network="@,
            ),
        has_prefix(trim_start(first), "network="@),
        forall|j: int| 0 <= j < inner.len() ==> trim(#[trigger] inner[j]) != "}"@,
        trim(last) == "}"@,
    ensures
        groups_from(before + seq![first] + inner + seq![last] + after, 0, None) == seq![
            seq![first] + inner + seq![last],
        ] + groups_from(after, 0, None),
        groups_from(before, 0, None) == Seq::<Seq<Seq<char>>>::empty(),
{
    let ls = before + seq![first] + inner + seq![last] + after;
    let k = before.len() as int;
    let m = k + 1 + inner.len();
    assert forall|j: int| 0 <= j < k implies !opens_block(#[trigger] ls[j]) && !opens_block(
        before[j],
    ) by {
        assert(ls[j] == before[j]);
    }
    lemma_passed_over(ls, 0, k);
    lemma_passed_over(before, 0, k);
    assert(ls[k] == first);
    assert forall|j: int| k + 1 <= j < m implies !closes_block(#[trigger] ls[j]) by {
        assert(ls[j] == inner[j - k - 1]);
    }
    lemma_taken_in(ls, k + 1, m, seq![first]);
    assert(ls.subrange(k + 1, m) =~= inner);
    assert(ls[m] == last);
    assert((seq![first] + inner).push(last) =~= seq![first] + inner + seq![last]);
    let pre = before + seq![first] + inner + seq![last];
    assert(ls =~= pre + after);
    lemma_groups_shift(pre, after, 0, None);
}

} // verus!
