//! What parameters say, name by name and field by field.
use vstd::prelude::*;
use crate::miracast::rtsp::VideoMode;
use crate::miracast::source::caps::{
    caps_of, codec_of, codecs_from, mode_name, value, value_from, CapsErrorView, SinkCapsView,
};
use crate::miracast::wfd::{
    listed, max_bitrate_from, pair_of, parameters, parameters_from, Pair,
};
use crate::number::{dec, parse_dec, parse_hex};
use crate::text::{lines, lowered, pieces, split_once, trim, words};

verus! {

// ---- parameters ----

proof fn lemma_cons(l: Seq<char>, ls: Seq<Seq<char>>, i: int)
    requires
        0 <= i <= ls.len(),
    ensures
        parameters_from(seq![l] + ls, i + 1) == parameters_from(ls, i),
    decreases ls.len() - i,
{
    if i < ls.len() {
        assert((seq![l] + ls)[i + 1] == ls[i]);
        lemma_cons(l, ls, i + 1);
    }
}

/// Each line is a parameter of its own: a name and a value with a colon between them,
/// a bare name without one, or nothing if the line is blank.
pub proof fn law_each_line_is_a_parameter(a: Seq<char>, b: Seq<char>)
    requires
        !a.contains('\n'),
        a.len() == 0 || a.last() != '\r',
    ensures
        ({
            let t = trim(a);
            let all = parameters(a + seq!['\n'] + b);
            &&& t.len() == 0 ==> all == parameters(b)
            &&& t.len() > 0 && !t.contains(':') ==> all == seq![(t, Seq::<char>::empty())]
                + parameters(b)
            &&& t.len() > 0 ==> all.len() == parameters(b).len() + 1 && all.drop_first()
                == parameters(b)
        }),
{
    let t = trim(a);
    crate::text_laws::law_lines_end_at_line_feeds(a, b);
    let ls = lines(b);
    lemma_cons(a, ls, 0);
    assert((seq![a] + ls)[0] == a);
    let all = parameters(a + seq!['\n'] + b);
    assert(all == parameters_from(seq![a] + ls, 0));
    if t.len() > 0 {
        assert(all == seq![pair_of(t)] + parameters(b));
        assert(all.drop_first() =~= parameters(b));
        if !t.contains(':') {
            crate::text_laws::law_a_text_is_split_at_the_first_mark(t, ':', b);
        }
    }
}

/// A line's name ends at its first colon, and neither the name nor the value keeps
/// white space around it.
pub proof fn law_a_name_ends_at_the_first_colon(k: Seq<char>, v: Seq<char>)
    requires
        !k.contains(':'),
    ensures
        pair_of(k + seq![':'] + v) == (trim(k), trim(v)),
{
    crate::text_laws::law_a_text_is_split_at_the_first_mark(k, ':', v);
}

/// A name stands for its first value, and for none if it does not occur.
pub proof fn law_the_first_value_counts(ps: Seq<Pair>, name: Seq<char>, k: int)
    ensures
        0 <= k < ps.len() && ps[k].0 == name && (forall|j: int|
            0 <= j < k ==> (#[trigger] ps[j]).0 != name) ==> value(ps, name) == Some(ps[k].1),
        (forall|j: int| 0 <= j < ps.len() ==> (#[trigger] ps[j]).0 != name) ==> value(ps, name)
            is None,
{
    lemma_value(ps, name, k, 0);
}

proof fn lemma_value(ps: Seq<Pair>, name: Seq<char>, k: int, i: int)
    requires
        0 <= i,
    ensures
        i <= k < ps.len() && ps[k].0 == name && (forall|j: int|
            0 <= j < k ==> (#[trigger] ps[j]).0 != name) ==> value_from(ps, name, i) == Some(
            ps[k].1,
        ),
        (forall|j: int| 0 <= j < ps.len() ==> (#[trigger] ps[j]).0 != name) ==> value_from(
            ps,
            name,
            i,
        ) is None,
    decreases ps.len() - i,
{
    if i < ps.len() {
        lemma_value(ps, name, k, i + 1);
    }
}

// ---- what a display says of itself ----

/// Whether five fields from `k` on are the numbers of a codec.
pub open spec fn has_codec(f: Seq<Seq<char>>, k: int) -> bool {
    &&& f.len() >= k + 5
    &&& parse_hex(f[k], 0xff) is Some
    &&& parse_hex(f[k + 1], 0xff) is Some
    &&& parse_hex(f[k + 2], 0xffff_ffff) is Some
    &&& parse_hex(f[k + 3], 0xffff_ffff) is Some
    &&& parse_hex(f[k + 4], 0xffff_ffff) is Some
}

/// The first field of a tuple's own: native and preferred mode precede it in the
/// first tuple.
pub open spec fn first_field(i: int) -> int {
    if i == 0 {
        2
    } else {
        0
    }
}

proof fn lemma_codecs(ts: Seq<Seq<char>>, i: int, k: int)
    requires
        0 <= i,
    ensures
        codecs_from(ts, i) is Some <==> (forall|j: int|
            i <= j < ts.len() ==> has_codec(words(#[trigger] ts[j]), first_field(j))),
        codecs_from(ts, i) matches Some(cs) ==> {
            &&& i <= ts.len() ==> cs.len() == ts.len() - i
            &&& i <= k < ts.len() ==> codec_of(words(ts[k]), first_field(k)) == Some(cs[k - i])
        },
    decreases ts.len() - i,
{
    if i < ts.len() {
        lemma_codecs(ts, i + 1, k);
        assert(codec_of(words(ts[i]), first_field(i)) is Some <==> has_codec(
            words(ts[i]),
            first_field(i),
        ));
    }
}

/// A display's video formats: one codec to each tuple between commas, its profile,
/// its level and its three tables in this order, all in hexadecimal. A tuple with
/// fewer fields, or a field that is no number, spoils them all.
pub proof fn law_what_a_display_shows(body: Seq<char>, video: Seq<char>, k: int)
    requires
        value(parameters(body), "wfd_video_formats"@) == Some(video),
    ensures
        ({
            let ts = pieces(video, ',');
            let r = caps_of(body);
            &&& r is Ok <==> (forall|j: int|
                0 <= j < ts.len() ==> has_codec(words(#[trigger] ts[j]), first_field(j)))
            &&& r is Err ==> r == Err::<SinkCapsView, CapsErrorView>(
                CapsErrorView::MalformedVideoFormats(video),
            )
            &&& r matches Ok(c) ==> c.video_formats.len() == ts.len()
            &&& r matches Ok(c) ==> 0 <= k < ts.len() ==> {
                let (f, o) = (words(ts[k]), first_field(k));
                let v = c.video_formats[k];
                &&& parse_hex(f[o], 0xff) == Some(v.profile as nat)
                &&& parse_hex(f[o + 1], 0xff) == Some(v.level as nat)
                &&& parse_hex(f[o + 2], 0xffff_ffff) == Some(v.cea as nat)
                &&& parse_hex(f[o + 3], 0xffff_ffff) == Some(v.vesa as nat)
                &&& parse_hex(f[o + 4], 0xffff_ffff) == Some(v.hh as nat)
            }
            &&& r matches Ok(c) ==> ts.len() > 0 ==> {
                let v = c.video_formats[0];
                &&& c.profile == v.profile && c.level == v.level
                &&& c.cea == v.cea && c.vesa == v.vesa && c.hh == v.hh
            }
        }),
{
    let ts = pieces(video, ',');
    lemma_codecs(ts, 0, k);
}

/// What else a display says: its LPCM modes are the second word of its audio codecs,
/// its port the second word of its ports, 5000 if it does not say; its ceiling is the
/// number it names, and `none` is no content protection.
pub proof fn law_what_else_a_display_says(body: Seq<char>)
    requires
        caps_of(body) is Ok,
    ensures
        ({
            let ps = parameters(body);
            let c = caps_of(body)->Ok_0;
            let audio = value(ps, "wfd_audio_codecs"@);
            let ports = value(ps, "wfd_client_rtp_ports"@);
            let most = value(ps, "microsoft_max_bitrate"@);
            let guard = value(ps, "wfd_content_protection"@);
            let modes = parse_hex(words(audio->0)[1], 0xffff_ffff);
            let port = parse_dec(words(ports->0)[1], 65535);
            &&& audio is Some && words(audio->0).len() >= 2 && modes is Some ==> c.lpcm_modes
                == modes->0
            &&& !(audio is Some && words(audio->0).len() >= 2 && modes is Some) ==> c.lpcm_modes == 0
            &&& ports is Some && words(ports->0).len() >= 2 && port is Some ==> c.rtp_port
                == port->0
            &&& !(ports is Some && words(ports->0).len() >= 2 && port is Some) ==> c.rtp_port == 5000
            &&& c.max_bitrate_kbps is Some <==> most is Some && parse_dec(
                trim(most->0),
                0xffff_ffff,
            ) is Some
            &&& c.max_bitrate_kbps matches Some(n) ==> parse_dec(trim(most->0), 0xffff_ffff) == Some(
                n as nat,
            )
            &&& c.content_protection is Some <==> guard is Some && trim(guard->0) != "none"@
            &&& c.content_protection is Some ==> c.content_protection == guard
        }),
{
}

/// A display that names no video formats is refused as such.
pub proof fn law_a_display_without_video(body: Seq<char>)
    ensures
        value(parameters(body), "wfd_video_formats"@) is None <==> caps_of(body) == Err::<
            SinkCapsView,
            CapsErrorView,
        >(CapsErrorView::NoVideoFormats),
{
}

// ---- requests ----

/// Whether a line asks for a ceiling, in whatever case.
pub open spec fn asks(l: Seq<char>) -> bool {
    split_once(l, ':') is Some && {
        let kv = split_once(l, ':')->0;
        lowered(trim(kv.0)) == lowered("microsoft_max_bitrate"@)
    }
}

/// The first line that asks for a ceiling decides, whatever lines stand before it; a
/// body without one asks for nothing.
pub proof fn law_the_first_request_counts(ls: Seq<Seq<char>>, k: int)
    ensures
        0 <= k < ls.len() && asks(ls[k]) && (forall|j: int| 0 <= j < k ==> !asks(#[trigger] ls[j]))
            ==> max_bitrate_from(ls, 0) == parse_dec(
            trim(
                ({
                    let kv = split_once(ls[k], ':')->0;
                    kv.1
                }),
            ),
            0xffff_ffff,
        ),
        (forall|j: int| 0 <= j < ls.len() ==> !asks(#[trigger] ls[j])) ==> max_bitrate_from(ls, 0)
            is None,
{
    lemma_asks(ls, k, 0);
}

proof fn lemma_asks(ls: Seq<Seq<char>>, k: int, i: int)
    requires
        0 <= i,
    ensures
        i <= k < ls.len() && asks(ls[k]) && (forall|j: int| 0 <= j < k ==> !asks(#[trigger] ls[j]))
            ==> max_bitrate_from(ls, i) == parse_dec(
            trim(
                ({
                    let kv = split_once(ls[k], ':')->0;
                    kv.1
                }),
            ),
            0xffff_ffff,
        ),
        (forall|j: int| 0 <= j < ls.len() ==> !asks(#[trigger] ls[j])) ==> max_bitrate_from(ls, i)
            is None,
    decreases ls.len() - i,
{
    if i < ls.len() {
        assert(asks(ls[i]) || !asks(ls[i]));
        lemma_asks(ls, k, i + 1);
    }
}

// ---- words ----

/// A mode is shown as its width, its height and its rate, with an `x` and a `p`
/// between them; names in a list have a comma and a space between them.
pub proof fn law_how_modes_are_shown(m: VideoMode, names: Seq<Seq<char>>, name: Seq<char>)
    ensures
        mode_name(m) == dec(m.width as nat) + seq!['x'] + dec(m.height as nat) + seq!['p'] + dec(
            m.fps as nat,
        ),
        listed(seq![name]) == name,
        names.len() > 0 ==> listed(names.push(name)) == listed(names) + seq![',', ' '] + name,
{
    reveal_strlit("x");
    reveal_strlit("p");
    reveal_strlit(", ");
    assert("x"@ =~= seq!['x']);
    assert("p"@ =~= seq!['p']);
    assert(", "@ =~= seq![',', ' ']);
    assert(names.push(name).drop_last() =~= names);
}

} // verus!
