//! How receivers are found: they answer a probe, and advertise themselves.
use vstd::prelude::*;
use crate::miracast::dhcp::Ipv4Addr;
use crate::net::identity::{fingerprint_in, fp_view, hex_encode, hex_text, parse_fingerprint};
use crate::net::tls::same_fingerprint;
use crate::number::{dec, parse_dec, push_dec, read_dec};
use crate::proto::PROTOCOL_VERSION;
use crate::text::{comes_before, less, part, push_chars, push_str, to_chars, to_string};

verus! {

pub const SERVICE_TYPE: &'static str = "_castr._udp.local.";

pub const PROBE_PORT: u16 = 7331;

/// What a probe begins with, `CASTR?`.
pub const PROBE_MAGIC: [u8; 6] = [0x43, 0x41, 0x53, 0x54, 0x52, 0x3f];

/// A receiver that was found.
#[derive(Debug, Clone, PartialEq, Eq)]
pub struct ReceiverInfo {
    pub name: String,
    pub fingerprint: [u8; 32],
    pub ip: Ipv4Addr,
    pub port: u16,
    pub version: u16,
}

/// What a receiver that was found is.
#[verifier::ext_equal]
pub struct InfoView {
    pub name: Seq<char>,
    pub fingerprint: Seq<u8>,
    pub ip: Ipv4Addr,
    pub port: u16,
    pub version: u16,
}

impl View for ReceiverInfo {
    type V = InfoView;

    open spec fn view(&self) -> InfoView {
        InfoView {
            name: self.name@,
            fingerprint: self.fingerprint@,
            ip: self.ip,
            port: self.port,
            version: self.version,
        }
    }
}

pub open spec fn infos(v: Seq<ReceiverInfo>) -> Seq<InfoView> {
    Seq::new(v.len(), |i: int| v[i]@)
}

/// What a receiver answers a probe with.
#[derive(Debug, Clone)]
pub struct Beacon {
    pub name: String,
    pub fp: [u8; 32],
    pub port: u16,
    pub version: u16,
}

/// A receiver's answer to probes.
pub fn beacon(name: &str, fp: [u8; 32], quic_port: u16) -> (b: Beacon)
    ensures
        b.name@ == name@,
        b.fp == fp,
        b.port == quic_port,
        b.version == PROTOCOL_VERSION,
{
    Beacon { name: name.to_owned(), fp, port: quic_port, version: PROTOCOL_VERSION }
}

/// The probe that receivers answer.
pub open spec fn probe_bytes() -> Seq<u8> {
    PROBE_MAGIC@.push((PROTOCOL_VERSION % 256) as u8)
}

pub fn probe() -> (v: Vec<u8>)
    ensures
        v@ == probe_bytes(),
{
    let mut v: Vec<u8> = Vec::new();
    let mut i: usize = 0;
    while i < 6
        invariant
            i <= 6,
            v@ == PROBE_MAGIC@.take(i as int),
        decreases 6 - i,
    {
        v.push(PROBE_MAGIC[i]);
        i = i + 1;
        assert(v@ =~= PROBE_MAGIC@.take(i as int));
    }
    v.push((PROTOCOL_VERSION % 256) as u8);
    assert(v@ =~= probe_bytes());
    v
}

/// Whether a datagram is a probe: the magic and one byte more, whatever version
/// that names.
pub open spec fn probes(d: Seq<u8>) -> bool {
    d.len() == PROBE_MAGIC@.len() + 1 && d.take(6) == PROBE_MAGIC@
}

pub fn is_probe(d: &[u8]) -> (r: bool)
    ensures
        r == probes(d@),
{
    if d.len() != 7 {
        return false;
    }
    let mut i: usize = 0;
    while i < 6
        invariant
            i <= 6,
            d@.len() == 7,
            forall|j: int| 0 <= j < i ==> d@[j] == PROBE_MAGIC@[j],
        decreases 6 - i,
    {
        if d[i] != PROBE_MAGIC[i] {
            assert(d@.take(6)[i as int] != PROBE_MAGIC@[i as int]);
            return false;
        }
        i = i + 1;
    }
    assert(d@.take(6) =~= PROBE_MAGIC@);
    true
}

/// The host name that a receiver advertises itself under.
pub open spec fn host_text(fp: Seq<u8>) -> Seq<char> {
    "castr-"@ + hex_text(fp).take(12) + ".local."@
}

pub fn host_name(fp: &[u8; 32]) -> (s: String)
    ensures
        s@ == host_text(fp@),
{
    let hex = to_chars(hex_encode(fp).as_str());
    let mut v = to_chars("castr-");
    push_chars(&mut v, part(&hex, 0, 12));
    push_str(&mut v, ".local.");
    assert(hex@.subrange(0, 12) =~= hex_text(fp@).take(12));
    assert(v@ =~= host_text(fp@));
    to_string(&v)
}

/// What a receiver says of itself when it advertises: its name, its
/// fingerprint, and the version it speaks.
pub fn properties(name: &str, fp: &[u8; 32]) -> (v: Vec<(String, String)>)
    ensures
        v@.len() == 3,
        v@[0].0@ == "name"@ && v@[0].1@ == name@,
        v@[1].0@ == "fp"@ && v@[1].1@ == hex_text(fp@),
        v@[2].0@ == "ver"@ && v@[2].1@ == dec(PROTOCOL_VERSION as nat),
{
    let mut ver: Vec<char> = Vec::new();
    push_dec(&mut ver, PROTOCOL_VERSION as u64);
    let mut v: Vec<(String, String)> = Vec::new();
    v.push(("name".to_owned(), name.to_owned()));
    v.push(("fp".to_owned(), hex_encode(fp)));
    v.push(("ver".to_owned(), to_string(&ver)));
    v
}

/// What is advertised, as it is found.
pub struct Service {
    pub fp: Option<String>,
    pub name: Option<String>,
    pub ver: Option<String>,
    /// The addresses it can be reached at.
    pub ips: Vec<Ipv4Addr>,
    pub port: u16,
}

/// The version that a text names, or zero.
pub open spec fn version_in(ver: Option<String>) -> u16 {
    match ver {
        Some(v) => match parse_dec(v@, u16::MAX as nat) {
            Some(n) => n as u16,
            None => 0,
        },
        None => 0,
    }
}

/// The receiver that is advertised, if it says who it is and where.
pub open spec fn advertised(s: Service) -> Option<InfoView> {
    match s.fp {
        Some(fp) => match fingerprint_in(fp@) {
            Some(fp) if s.ips@.len() > 0 => Some(
                InfoView {
                    name: match s.name {
                        Some(n) => n@,
                        None => seq![],
                    },
                    fingerprint: fp,
                    ip: s.ips@[0],
                    port: s.port,
                    version: version_in(s.ver),
                },
            ),
            _ => None,
        },
        None => None,
    }
}

pub fn receiver_of(s: Service) -> (r: Option<ReceiverInfo>)
    ensures
        match advertised(s) {
            Some(i) => r matches Some(info) && info@ == i,
            None => r is None,
        },
{
    let fp = match &s.fp {
        Some(t) => parse_fingerprint(t.as_str()),
        None => None,
    };
    let version: u16 = match &s.ver {
        Some(v) => match read_dec(&to_chars(v.as_str()), u16::MAX as u64) {
            Some(n) => n as u16,
            None => 0,
        },
        None => 0,
    };
    match fp {
        Some(fingerprint) => {
            if s.ips.len() == 0 {
                return None;
            }
            let ip = s.ips[0];
            let name = match s.name {
                Some(n) => n,
                None => {
                    let n = String::new();
                    assert(n@ =~= seq![]);
                    n
                },
            };
            Some(ReceiverInfo { name, fingerprint, ip, port: s.port, version })
        },
        None => None,
    }
}

/// Whether one of the receivers has a fingerprint.
pub open spec fn has_fp(l: Seq<InfoView>, fp: Seq<u8>) -> bool {
    exists|i: int| 0 <= i < l.len() && (#[trigger] l[i]).fingerprint == fp
}

/// The receivers with one more, unless it is there already.
pub open spec fn joined(l: Seq<InfoView>, i: InfoView) -> Seq<InfoView> {
    if has_fp(l, i.fingerprint) {
        l
    } else {
        l.push(i)
    }
}

/// The receivers with all of `more` from `k` on.
pub open spec fn joined_all(l: Seq<InfoView>, more: Seq<InfoView>, k: int) -> Seq<InfoView>
    decreases more.len() - k,
{
    if k >= more.len() || k < 0 {
        l
    } else {
        joined_all(joined(l, more[k]), more, k + 1)
    }
}

/// The first place from `k` on that holds a name after `name`.
pub open spec fn place_of(l: Seq<InfoView>, name: Seq<char>, k: int) -> int
    decreases l.len() - k,
{
    if k >= l.len() || k < 0 {
        l.len() as int
    } else if less(name, l[k].name) {
        k
    } else {
        place_of(l, name, k + 1)
    }
}

/// The first `n` receivers in the order of their names.
pub open spec fn by_name(l: Seq<InfoView>, n: int) -> Seq<InfoView>
    decreases n,
{
    if n <= 0 {
        seq![]
    } else {
        let s = by_name(l, n - 1);
        s.insert(place_of(s, l[n - 1].name, 0), l[n - 1])
    }
}

/// Receivers that were found, each once.
pub struct Found {
    list: Vec<ReceiverInfo>,
}

impl View for Found {
    type V = Seq<InfoView>;

    closed spec fn view(&self) -> Seq<InfoView> {
        infos(self.list@)
    }
}

impl Found {
    pub fn new() -> (f: Self)
        ensures
            f@ == Seq::<InfoView>::empty(),
    {
        let f = Found { list: Vec::new() };
        assert(f@ =~= Seq::<InfoView>::empty());
        f
    }

    /// Takes in a receiver, unless it was found already.
    pub fn join(&mut self, info: ReceiverInfo)
        ensures
            final(self)@ == joined(old(self)@, info@),
    {
        let n: usize = self.list.len();
        let mut i: usize = 0;
        while i < n
            invariant
                i <= n,
                n == self.list@.len(),
                self@ == old(self)@,
                forall|j: int| 0 <= j < i ==> (#[trigger] self@[j]).fingerprint
                    != info.fingerprint@,
            decreases n - i,
        {
            assert(self@[i as int] == self.list@[i as int]@);
            if same_fingerprint(&self.list[i].fingerprint, &info.fingerprint) {
                return;
            }
            i = i + 1;
        }
        let ghost before = self.list@;
        let ghost v = info@;
        self.list.push(info);
        assert(infos(self.list@) =~= infos(before).push(v));
    }

    /// Takes in an answer to a probe, from where it came.
    pub fn on_beacon(&mut self, b: Beacon, from: Ipv4Addr)
        ensures
            final(self)@ == joined(
                old(self)@,
                InfoView {
                    name: b.name@,
                    fingerprint: b.fp@,
                    ip: from,
                    port: b.port,
                    version: b.version,
                },
            ),
    {
        self.join(
            ReceiverInfo {
                name: b.name,
                fingerprint: b.fp,
                ip: from,
                port: b.port,
                version: b.version,
            },
        );
    }

    /// Takes in what is advertised.
    pub fn on_service(&mut self, s: Service)
        ensures
            final(self)@ == match advertised(s) {
                Some(i) => joined(old(self)@, i),
                None => old(self)@,
            },
    {
        if let Some(info) = receiver_of(s) {
            self.join(info);
        }
    }

    /// Those that answered a probe and those that advertise, each once, in the
    /// order of their names.
    pub fn merged(self, advertised: Found) -> (v: Vec<ReceiverInfo>)
        ensures
            ({
                let all = joined_all(self@, advertised@, 0);
                infos(v@) == by_name(all, all.len() as int)
            }),
    {
        let ghost l0 = self@;
        let ghost more = advertised@;
        let mut all = self;
        let mut rest: Vec<ReceiverInfo> = reversed(advertised.list);
        let ghost n = rest@.len();
        while rest.len() > 0
            invariant
                n == more.len(),
                rest@.len() <= n,
                infos(rest@).reverse() =~= more.skip(n - rest@.len()),
                joined_all(all@, more, n - rest@.len()) == joined_all(l0, more, 0),
            decreases rest@.len(),
        {
            let ghost r = rest@;
            let info = rest.pop().unwrap();
            let ghost v = info@;
            proof {
                assert(infos(r) =~= infos(rest@).push(v));
                assert(infos(r).reverse()[0] == v);
                assert(more[n - r.len()] == v);
                assert(infos(r).reverse() =~= seq![v] + infos(rest@).reverse());
                assert(more.skip(n - rest@.len()) =~= more.skip(n - r.len()).skip(1));
                assert((seq![v] + infos(rest@).reverse()).skip(1) =~= infos(rest@).reverse());
            }
            all.join(info);
        }
        sorted_by_name(all.list)
    }
}

fn reversed(v: Vec<ReceiverInfo>) -> (r: Vec<ReceiverInfo>)
    ensures
        infos(r@).reverse() == infos(v@),
        r@.len() == v@.len(),
{
    let ghost all = infos(v@);
    let mut rest = v;
    let mut r: Vec<ReceiverInfo> = Vec::new();
    while rest.len() > 0
        invariant
            infos(rest@) + infos(r@).reverse() =~= all,
        decreases rest@.len(),
    {
        let ghost before = rest@;
        let ghost was = r@;
        let info = rest.pop().unwrap();
        let ghost w = info@;
        r.push(info);
        proof {
            assert(infos(before) =~= infos(rest@).push(w));
            assert(infos(r@) =~= infos(was).push(w));
            assert(infos(r@).reverse() =~= seq![w] + infos(was).reverse());
        }
    }
    assert(infos(r@).reverse() =~= all);
    r
}

fn sorted_by_name(v: Vec<ReceiverInfo>) -> (out: Vec<ReceiverInfo>)
    ensures
        infos(out@) == by_name(infos(v@), v@.len() as int),
{
    let ghost all = infos(v@);
    let mut rest = reversed(v);
    let ghost n = rest@.len();
    let mut out: Vec<ReceiverInfo> = Vec::new();
    assert(infos(out@) =~= by_name(all, 0));
    assert(infos(rest@).reverse() =~= all.skip(0));
    while rest.len() > 0
        invariant
            n == all.len(),
            rest@.len() <= n,
            infos(rest@).reverse() =~= all.skip(n - rest@.len()),
            infos(out@) == by_name(all, n - rest@.len()),
        decreases rest@.len(),
    {
        let ghost r = rest@;
        let info = rest.pop().unwrap();
        let ghost w = info@;
        proof {
            assert(infos(r) =~= infos(rest@).push(w));
            assert(infos(r).reverse()[0] == w);
            assert(all[n - r.len()] == w);
            assert(infos(r).reverse() =~= seq![w] + infos(rest@).reverse());
            assert(all.skip(n - rest@.len()) =~= all.skip(n - r.len()).skip(1));
            assert((seq![w] + infos(rest@).reverse()).skip(1) =~= infos(rest@).reverse());
        }
        insert_by_name(&mut out, info);
    }
    out
}

fn insert_by_name(out: &mut Vec<ReceiverInfo>, info: ReceiverInfo)
    ensures
        infos(final(out)@) == infos(old(out)@).insert(
            place_of(infos(old(out)@), info.name@, 0),
            info@,
        ),
{
    let n: usize = out.len();
    let mut k: usize = 0;
    let ghost before = infos(out@);
    let ghost w = info@;
    let name = to_chars(info.name.as_str());
    while k < n
        invariant_except_break
            k <= n,
            n == out@.len(),
            before == infos(out@),
            name@ == w.name,
            place_of(before, w.name, 0) == place_of(before, w.name, k as int),
        ensures
            k <= n,
            k == place_of(before, w.name, 0),
        decreases n - k,
    {
        let there = to_chars(out[k].name.as_str());
        assert(before[k as int] == out@[k as int]@);
        if comes_before(&name, &there) {
            break;
        }
        k = k + 1;
    }
    out.insert(k, info);
    assert(infos(out@) =~= before.insert(k as int, w));
}

// ---- laws ----

/// Our probe is a probe.
pub proof fn law_our_probe_is_answered()
    ensures
        probes(probe_bytes()),
{
    assert(probe_bytes().take(6) =~= PROBE_MAGIC@);
}

/// Whether every receiver is there once.
pub open spec fn once(l: Seq<InfoView>) -> bool {
    forall|i: int, j: int|
        0 <= i < j < l.len() ==> (#[trigger] l[i]).fingerprint != (#[trigger] l[j]).fingerprint
}

/// A receiver that is found twice, or in two ways, is found once: as it was
/// found first.
pub proof fn law_receivers_are_found_once(l: Seq<InfoView>, i: InfoView)
    requires
        once(l),
    ensures
        once(joined(l, i)),
        has_fp(joined(l, i), i.fingerprint),
        has_fp(l, i.fingerprint) ==> joined(l, i) == l,
{
    if !has_fp(l, i.fingerprint) {
        assert(joined(l, i)[l.len() as int] == i);
    }
}

/// What a receiver advertises is found as what it is.
pub proof fn law_an_advertiser_is_found(
    name: String,
    fp: Seq<u8>,
    hex: String,
    ver: String,
    ips: Vec<Ipv4Addr>,
    port: u16,
)
    requires
        fp.len() == 32,
        hex@ == hex_text(fp),
        ver@ == dec(PROTOCOL_VERSION as nat),
        ips@.len() > 0,
    ensures
        advertised(Service { fp: Some(hex), name: Some(name), ver: Some(ver), ips, port }) == Some(
            InfoView {
                name: name@,
                fingerprint: fp,
                ip: ips@[0],
                port,
                version: PROTOCOL_VERSION,
            },
        ),
{
    crate::net::identity::law_fingerprints_read_back(fp);
    crate::number::law_parse_dec_of_dec(PROTOCOL_VERSION as nat, u16::MAX as nat);
}

/// Receivers are listed in the order of their names, and all of them are.
pub proof fn law_receivers_are_listed_by_name(l: Seq<InfoView>, n: int)
    requires
        0 <= n <= l.len(),
    ensures
        by_name(l, n).len() == n,
        forall|i: int, j: int|
            0 <= i < j < n ==> !less(
                (#[trigger] by_name(l, n)[j]).name,
                (#[trigger] by_name(l, n)[i]).name,
            ),
        by_name(l, n).to_multiset() == l.take(n).to_multiset(),
    decreases n,
{
    broadcast use vstd::seq_lib::group_to_multiset_ensures;

    if n > 0 {
        law_receivers_are_listed_by_name(l, n - 1);
        let s = by_name(l, n - 1);
        let x = l[n - 1];
        let k = place_of(s, x.name, 0);
        lemma_place_of(s, x.name, 0);
        let t = s.insert(k, x);
        assert forall|i: int, j: int| 0 <= i < j < n implies !less(
            (#[trigger] t[j]).name,
            (#[trigger] t[i]).name,
        ) by {
            if j < k {
                assert(t[i] == s[i] && t[j] == s[j]);
            } else if j == k {
                assert(t[i] == s[i]);
            } else if i < k {
                assert(t[i] == s[i] && t[j] == s[j - 1]);
            } else if i == k {
                assert(t[j] == s[j - 1]);
                if j - 1 > k {
                    assert(!less(s[j - 1].name, s[k].name));
                    crate::text::law_texts_are_ordered(s[j - 1].name, x.name, s[k].name);
                } else {
                    crate::text::law_texts_are_ordered(x.name, s[k].name, x.name);
                }
            } else {
                assert(t[i] == s[i - 1] && t[j] == s[j - 1]);
            }
        }
        assert(l.take(n) =~= l.take(n - 1).push(x));
        vstd::seq_lib::to_multiset_insert(s, k, x);
    } else {
        assert(l.take(0) =~= seq![]);
    }
}

proof fn lemma_place_of(l: Seq<InfoView>, name: Seq<char>, k: int)
    requires
        0 <= k <= l.len(),
    ensures
        k <= place_of(l, name, k) <= l.len(),
        forall|i: int| k <= i < place_of(l, name, k) ==> !less(name, (#[trigger] l[i]).name),
        place_of(l, name, k) < l.len() ==> less(name, l[place_of(l, name, k)].name),
    decreases l.len() - k,
{
    if k < l.len() && !less(name, l[k].name) {
        lemma_place_of(l, name, k + 1);
    }
}

/// A probe is seven bytes, `CASTR?` and a version, whichever that is; ours names
/// the first.
pub proof fn law_what_a_probe_is(d: Seq<u8>)
    ensures
        probes(d) <==> d.len() == 7 && d[0] == 0x43 && d[1] == 0x41 && d[2] == 0x53 && d[3] == 0x54
            && d[4] == 0x52 && d[5] == 0x3f,
        probe_bytes().len() == 7,
        probe_bytes()[6] == 1,
{
    if d.len() == 7 {
        let t = d.take(6);
        assert(t[0] == d[0] && t[1] == d[1] && t[2] == d[2] && t[3] == d[3] && t[4] == d[4] && t[5]
            == d[5]);
        if d[0] == 0x43 && d[1] == 0x41 && d[2] == 0x53 && d[3] == 0x54 && d[4] == 0x52 && d[5]
            == 0x3f {
            assert(t =~= PROBE_MAGIC@);
        }
    }
}

/// A service is a receiver if it gives a fingerprint that can be read and an
/// address, of which the first counts. It need not give a name, nor a version.
pub proof fn law_what_a_service_is(s: Service)
    ensures
        ({
            let there = (s.fp matches Some(fp) && fingerprint_in(fp@) is Some) && s.ips@.len() > 0;
            &&& advertised(s) is Some <==> there
            &&& advertised(s) matches Some(i) ==> {
                &&& Some(i.fingerprint) == fingerprint_in((s.fp->0)@)
                &&& i.ip == s.ips@[0]
                &&& i.port == s.port
                &&& s.name matches Some(n) ==> i.name == n@
                &&& s.name is None ==> i.name.len() == 0
                &&& s.ver is None ==> i.version == 0
            }
        }),
{
}

/// Receivers that join keep the order in which they were found, behind those that
/// were there.
pub proof fn law_receivers_join_at_the_end(l: Seq<InfoView>, i: InfoView)
    ensures
        (forall|k: int| 0 <= k < l.len() ==> (#[trigger] l[k]).fingerprint != i.fingerprint)
            ==> joined(l, i) == l.push(i),
        (exists|k: int| 0 <= k < l.len() && (#[trigger] l[k]).fingerprint == i.fingerprint)
            ==> joined(l, i) == l,
{
}

/// A host is named by the first six bytes of its fingerprint.
pub proof fn law_the_name_of_a_host(fp: Seq<u8>)
    requires
        fp.len() >= 6,
    ensures
        host_text(fp) == "castr-"@ + hex_text(fp.take(6)) + ".local."@,
{
    assert(hex_text(fp).take(12) =~= hex_text(fp.take(6)));
}

/// A version is the decimal number that is given, and zero if none can be read.
pub proof fn law_the_version_of_a_service(s: Service)
    requires
        advertised(s) is Some,
    ensures
        ({
            let n = parse_dec((s.ver->0)@, 65535);
            &&& s.ver is Some && n is Some ==> (advertised(s)->0).version == n->0
            &&& s.ver is None || n is None ==> (advertised(s)->0).version == 0
        }),
{
}

} // verus!
