//! Who a sender or a receiver is, and whom it has paired with.
use vstd::prelude::*;
use sha2::{Digest, Sha256};
use crate::number::{all_hex_digits, hex_char, hex_digit, is_hex_digit};
use crate::text::{comes_before, less, law_texts_are_ordered, same, to_chars};

verus! {

// ---- fingerprints ----

/// The SHA-256 digest of some bytes.
pub uninterp spec fn sha256(data: Seq<u8>) -> Seq<u8>;

/// Calls `Sha256::digest`. What it gives is only named.
#[verifier::external_body]
fn digest(data: &[u8]) -> (d: [u8; 32])
    ensures
        d@ == sha256(data@),
{
    Sha256::digest(data).into()
}

/// What a certificate is known by.
pub fn fingerprint_of(cert_der: &[u8]) -> (fp: [u8; 32])
    ensures
        fp@ == sha256(cert_der@),
{
    digest(cert_der)
}

/// The hexadecimal digits of some bytes, in small letters, two to a byte.
pub open spec fn hex_text(b: Seq<u8>) -> Seq<char> {
    Seq::new(
        2 * b.len(),
        |i: int|
            hex_char(
                if i % 2 == 0 {
                    (b[i / 2] / 16) as nat
                } else {
                    (b[i / 2] % 16) as nat
                },
            ),
    )
}

/// The bytes that hexadecimal digits stand for, if that is what a text is.
pub open spec fn unhexed(s: Seq<char>) -> Option<Seq<u8>> {
    if s.len() % 2 == 0 && all_hex_digits(s) {
        Some(
            Seq::new(
                s.len() / 2,
                |i: int| (16 * hex_digit(s[2 * i]) + hex_digit(s[2 * i + 1])) as u8,
            ),
        )
    } else {
        None
    }
}

/// Calls `hex::encode`: two small hexadecimal digits to each byte.
#[verifier::external_body]
pub(crate) fn hex_encode(b: &[u8]) -> (s: String)
    ensures
        s@ == hex_text(b@),
{
    hex::encode(b)
}

/// Calls `hex::decode`: it takes an even number of hexadecimal digits, small or
/// capital, and nothing else.
#[verifier::external_body]
fn hex_decode(s: &str) -> (r: Option<Vec<u8>>)
    ensures
        r is Some <==> unhexed(s@) is Some,
        r matches Some(b) ==> unhexed(s@) == Some(b@),
{
    hex::decode(s).ok()
}

/// The fingerprint that a text stands for, if it is one.
pub open spec fn fingerprint_in(s: Seq<char>) -> Option<Seq<u8>> {
    match unhexed(s) {
        Some(b) if b.len() == 32 => Some(b),
        _ => None,
    }
}

/// What a fingerprint holds, if there is one.
pub open spec fn fp_view(fp: Option<[u8; 32]>) -> Option<Seq<u8>> {
    match fp {
        Some(a) => Some(a@),
        None => None,
    }
}

pub fn parse_fingerprint(hex_str: &str) -> (r: Option<[u8; 32]>)
    ensures
        fp_view(r) == fingerprint_in(hex_str@),
{
    let v = match hex_decode(hex_str) {
        Some(v) => v,
        None => {
            return None;
        },
    };
    if v.len() != 32 {
        return None;
    }
    let mut fp: [u8; 32] = [0u8;32];
    let mut i: usize = 0;
    while i < 32
        invariant
            i <= 32,
            v@.len() == 32,
            forall|j: int| 0 <= j < i ==> fp@[j] == v@[j],
        decreases 32 - i,
    {
        fp[i] = v[i];
        i = i + 1;
    }
    assert(fp@ =~= v@);
    Some(fp)
}

// ---- identities ----

/// What `rcgen` reports when it fails.
#[verifier::external_type_specification]
#[verifier::external_body]
pub struct ExRcgenError(rcgen::Error);

/// Whether a certificate with its key is something that may be made for a name.
pub uninterp spec fn may_certify(name: Seq<char>, cert_der: Seq<u8>, key_der: Seq<u8>) -> bool;

/// Calls `rcgen::generate_simple_self_signed` for one name, and gives the
/// certificate and the key pair it made. The key is drawn at random: they are
/// only said to be something that may be made for the name.
#[verifier::external_body]
fn self_signed(name: &str) -> (r: Result<(Vec<u8>, Vec<u8>), rcgen::Error>)
    ensures
        r matches Ok(p) ==> may_certify(name@, p.0@, p.1@),
{
    let ck = rcgen::generate_simple_self_signed(vec![name.to_string()])?;
    Ok((ck.cert.der().to_vec(), ck.key_pair.serialize_der()))
}

/// The name that certificates are made for.
pub const HOST_NAME: &'static str = "castr.local";

/// What went wrong with an identity.
#[derive(Debug, Clone, Copy, PartialEq, Eq, Structural)]
pub enum IdentityError {
    Generate,
}

impl IdentityError {
    pub fn message(&self) -> (s: &'static str)
        ensures
            s@ == "rcgen"@,
    {
        "rcgen"
    }
}

pub struct Identity {
    pub cert_der: Vec<u8>,
    pub key_der: Vec<u8>,
    pub fingerprint: [u8; 32],
}

impl Identity {
    /// Whether the fingerprint is the certificate's.
    pub open spec fn valid(self) -> bool {
        self.fingerprint@ == sha256(self.cert_der@)
    }

    pub fn generate() -> (r: Result<Self, IdentityError>)
        ensures
            r matches Ok(id) ==> id.valid() && may_certify(
                HOST_NAME@,
                id.cert_der@,
                id.key_der@,
            ),
            r matches Err(e) ==> e == IdentityError::Generate,
    {
        match self_signed(HOST_NAME) {
            Ok((cert_der, key_der)) => Ok(Identity::from_parts(cert_der, key_der)),
            Err(_) => Err(IdentityError::Generate),
        }
    }

    /// The identity of a certificate and its key.
    pub fn from_parts(cert_der: Vec<u8>, key_der: Vec<u8>) -> (id: Self)
        ensures
            id.valid(),
            id.cert_der == cert_der,
            id.key_der == key_der,
    {
        let fingerprint = fingerprint_of(cert_der.as_slice());
        Identity { cert_der, key_der, fingerprint }
    }

    pub fn fingerprint_hex(&self) -> (s: String)
        ensures
            s@ == hex_text(self.fingerprint@),
    {
        hex_encode(&self.fingerprint)
    }
}

// ---- peers ----

#[derive(Debug, Clone, PartialEq, Eq)]
pub struct PairedPeer {
    pub name: String,
    pub paired_at_unix: u64,
}

/// A peer under its key.
#[verifier::ext_equal]
pub struct Entry {
    pub key: Seq<char>,
    pub name: Seq<char>,
    pub paired_at_unix: u64,
}

/// A peer that is kept under a text; mostly its fingerprint in hexadecimal.
pub struct KeyedPeer {
    pub key: String,
    pub peer: PairedPeer,
}

impl KeyedPeer {
    pub open spec fn entry(self) -> Entry {
        Entry {
            key: self.key@,
            name: self.peer.name@,
            paired_at_unix: self.peer.paired_at_unix,
        }
    }
}

pub open spec fn entries(v: Seq<KeyedPeer>) -> Seq<Entry> {
    Seq::new(v.len(), |i: int| v[i].entry())
}

/// Whether entries are in the order of their keys, and no key is there twice.
pub open spec fn sorted(es: Seq<Entry>) -> bool {
    forall|i: int, j: int|
        0 <= i < j < es.len() ==> less((#[trigger] es[i]).key, (#[trigger] es[j]).key)
}

/// The first place from `i` on whose key does not come before `key`.
pub open spec fn place_from(es: Seq<Entry>, key: Seq<char>, i: int) -> int
    decreases es.len() - i,
{
    if i >= es.len() || i < 0 {
        es.len() as int
    } else if less(es[i].key, key) {
        place_from(es, key, i + 1)
    } else {
        i
    }
}

/// Whether there is an entry under a key.
pub open spec fn has_key(es: Seq<Entry>, key: Seq<char>) -> bool {
    exists|i: int| 0 <= i < es.len() && (#[trigger] es[i]).key == key
}

/// The entries with one more, in place of any under the same key.
pub open spec fn with_entry(es: Seq<Entry>, e: Entry) -> Seq<Entry> {
    let k = place_from(es, e.key, 0);
    if k < es.len() && es[k].key == e.key {
        es.update(k, e)
    } else {
        es.insert(k, e)
    }
}

/// The entries without the one under a key.
pub open spec fn without_key(es: Seq<Entry>, key: Seq<char>) -> Seq<Entry> {
    let k = place_from(es, key, 0);
    if k < es.len() && es[k].key == key {
        es.remove(k)
    } else {
        es
    }
}

/// All of `added` from `i` on put in one after the other.
pub open spec fn with_all(es: Seq<Entry>, added: Seq<Entry>, i: int) -> Seq<Entry>
    decreases added.len() - i,
{
    if i >= added.len() || i < 0 {
        es
    } else {
        with_all(with_entry(es, added[i]), added, i + 1)
    }
}

/// The peers from `i` on whose key is a fingerprint.
pub open spec fn listed_from(es: Seq<Entry>, i: int) -> Seq<(Seq<u8>, Seq<char>, u64)>
    decreases es.len() - i,
{
    if i >= es.len() || i < 0 {
        seq![]
    } else {
        match fingerprint_in(es[i].key) {
            Some(fp) => seq![(fp, es[i].name, es[i].paired_at_unix)] + listed_from(es, i + 1),
            None => listed_from(es, i + 1),
        }
    }
}

pub open spec fn listing(v: Seq<([u8; 32], PairedPeer)>) -> Seq<(Seq<u8>, Seq<char>, u64)> {
    Seq::new(v.len(), |i: int| (v[i].0@, v[i].1.name@, v[i].1.paired_at_unix))
}

/// The first of the listed peers from `i` on with a name.
pub open spec fn named_from(l: Seq<(Seq<u8>, Seq<char>, u64)>, name: Seq<char>, i: int) -> Option<
    Seq<u8>,
>
    decreases l.len() - i,
{
    if i >= l.len() || i < 0 {
        None
    } else if l[i].1 == name {
        Some(l[i].0)
    } else {
        named_from(l, name, i + 1)
    }
}

pub proof fn lemma_place(es: Seq<Entry>, key: Seq<char>, i: int)
    requires
        0 <= i <= es.len(),
    ensures
        i <= place_from(es, key, i) <= es.len(),
        forall|k: int| i <= k < place_from(es, key, i) ==> less((#[trigger] es[k]).key, key),
        place_from(es, key, i) < es.len() ==> !less(es[place_from(es, key, i)].key, key),
    decreases es.len() - i,
{
    if i < es.len() && less(es[i].key, key) {
        lemma_place(es, key, i + 1);
    }
}

/// In sorted entries a key is where its place is, or nowhere.
pub proof fn lemma_at_place(es: Seq<Entry>, key: Seq<char>)
    requires
        sorted(es),
    ensures
        has_key(es, key) <==> place_from(es, key, 0) < es.len() && es[place_from(es, key, 0)].key
            == key,
        forall|i: int|
            0 <= i < es.len() && (#[trigger] es[i]).key == key ==> i == place_from(es, key, 0),
        forall|i: int|
            0 <= i < es.len() && place_from(es, key, 0) <= i && (#[trigger] es[i]).key != key
                ==> less(key, es[i].key),
{
    let k = place_from(es, key, 0);
    lemma_place(es, key, 0);
    assert forall|i: int| 0 <= i < es.len() && (#[trigger] es[i]).key == key implies i == k by {
        law_texts_are_ordered(key, key, key);
        if i < k {
            assert(less(es[i].key, key));
        } else if k < i {
            assert(less(es[k].key, es[i].key));
        }
    }
    assert forall|i: int|
        0 <= i < es.len() && k <= i && (#[trigger] es[i]).key != key implies less(
        key,
        es[i].key,
    ) by {
        law_texts_are_ordered(es[k].key, key, key);
        law_texts_are_ordered(key, es[k].key, es[i].key);
        if k < i {
            assert(less(es[k].key, es[i].key));
        }
    }
}

pub proof fn lemma_with_entry(es: Seq<Entry>, e: Entry)
    requires
        sorted(es),
    ensures
        sorted(with_entry(es, e)),
        has_key(with_entry(es, e), e.key),
{
    let k = place_from(es, e.key, 0);
    lemma_place(es, e.key, 0);
    lemma_at_place(es, e.key);
    let t = with_entry(es, e);
    assert(t[k] == e);
    if k < es.len() && es[k].key == e.key {
        assert forall|i: int, j: int| 0 <= i < j < t.len() implies less(
            (#[trigger] t[i]).key,
            (#[trigger] t[j]).key,
        ) by {
            assert(less(es[i].key, es[j].key));
        }
    } else {
        assert forall|i: int, j: int| 0 <= i < j < t.len() implies less(
            (#[trigger] t[i]).key,
            (#[trigger] t[j]).key,
        ) by {
            if j < k {
                assert(t[i] == es[i] && t[j] == es[j]);
            } else if j == k {
                assert(t[i] == es[i]);
            } else if i < k {
                assert(t[i] == es[i] && t[j] == es[j - 1]);
            } else if i == k {
                assert(t[j] == es[j - 1]);
                assert(es[j - 1].key != e.key);
            } else {
                assert(t[i] == es[i - 1] && t[j] == es[j - 1]);
            }
        }
    }
}

pub struct PairedStore {
    peers: Vec<KeyedPeer>,
}

impl View for PairedStore {
    type V = Seq<Entry>;

    closed spec fn view(&self) -> Seq<Entry> {
        entries(self.peers@)
    }
}

impl PairedStore {
    pub open spec fn valid(&self) -> bool {
        sorted(self@)
    }

    /// A store with the peers of a file.
    pub fn load(peers: Vec<KeyedPeer>) -> (s: Self)
        ensures
            s@ == with_all(seq![], entries(peers@), 0),
            s.valid(),
    {
        let mut s = PairedStore { peers: Vec::new() };
        assert(s@ =~= seq![]);
        let ghost all = entries(peers@);
        let mut rest = peers;
        let mut todo: Vec<KeyedPeer> = Vec::new();
        while rest.len() > 0
            invariant
                entries(rest@) + entries(todo@).reverse() =~= all,
            decreases rest@.len(),
        {
            let ghost r = rest@;
            let ghost t = todo@;
            let p = rest.pop().unwrap();
            let ghost e = p.entry();
            todo.push(p);
            assert(entries(todo@) =~= entries(t).push(e));
            assert(entries(r) =~= entries(rest@).push(e));
            assert(entries(todo@).reverse() =~= seq![e] + entries(t).reverse());
        }
        let ghost n = todo@.len();
        assert(entries(todo@).reverse() =~= all);
        while todo.len() > 0
            invariant
                todo@.len() <= n,
                n == all.len(),
                entries(todo@).reverse() =~= all.skip(n - todo@.len()),
                with_all(s@, all, n - todo@.len()) == with_all(seq![], all, 0),
                s.valid(),
            decreases todo@.len(),
        {
            let ghost t = todo@;
            let p = todo.pop().unwrap();
            assert(entries(t).last() == p.entry());
            assert(entries(t).reverse()[0] == p.entry());
            assert(all[n - t.len()] == p.entry());
            assert(entries(t) =~= entries(todo@).push(p.entry()));
            assert(entries(t).reverse() =~= seq![p.entry()] + entries(todo@).reverse());
            assert(entries(todo@).reverse() =~= all.skip(n - todo@.len())) by {
                assert(all.skip(n - todo@.len()) =~= all.skip(n - t.len()).skip(1));
                assert((seq![p.entry()] + entries(todo@).reverse()).skip(1) =~= entries(
                    todo@,
                ).reverse());
            }
            s.put(p);
        }
        s
    }

    /// The first place whose key does not come before `key`.
    fn place(&self, key: &[char]) -> (k: usize)
        ensures
            k == place_from(self@, key@, 0),
            k <= self@.len(),
    {
        let n: usize = self.peers.len();
        let mut i: usize = 0;
        while i < n
            invariant
                i <= n,
                n == self.peers@.len(),
                place_from(self@, key@, 0) == place_from(self@, key@, i as int),
            decreases n - i,
        {
            assert(self@[i as int] == self.peers@[i as int].entry());
            let k = to_chars(self.peers[i].key.as_str());
            if !comes_before(&k, key) {
                return i;
            }
            i = i + 1;
        }
        n
    }

    /// Whether the key at a place is `key`.
    fn is_at(&self, k: usize, key: &[char]) -> (r: bool)
        ensures
            r == (k < self@.len() && self@[k as int].key == key@),
    {
        if k >= self.peers.len() {
            return false;
        }
        assert(self@[k as int] == self.peers@[k as int].entry());
        let c = to_chars(self.peers[k].key.as_str());
        same(&c, key)
    }

    fn put(&mut self, p: KeyedPeer)
        requires
            old(self).valid(),
        ensures
            final(self)@ == with_entry(old(self)@, p.entry()),
            final(self).valid(),
    {
        let ghost before = self.peers@;
        let ghost e = p.entry();
        let key = to_chars(p.key.as_str());
        let k = self.place(&key);
        proof {
            lemma_with_entry(self@, e);
        }
        if self.is_at(k, &key) {
            self.peers.set(k, p);
            assert(entries(self.peers@) =~= entries(before).update(k as int, e));
        } else {
            self.peers.insert(k, p);
            assert(entries(self.peers@) =~= entries(before).insert(k as int, e));
        }
    }

    /// What there is to be saved.
    pub fn peers(&self) -> (v: &Vec<KeyedPeer>)
        ensures
            entries(v@) == self@,
    {
        &self.peers
    }

    pub fn is_paired(&self, fp: &[u8; 32]) -> (r: bool)
        requires
            self.valid(),
        ensures
            r == has_key(self@, hex_text(fp@)),
    {
        let key = to_chars(hex_encode(fp).as_str());
        let k = self.place(&key);
        proof {
            lemma_at_place(self@, key@);
        }
        self.is_at(k, &key)
    }

    /// Remembers a peer under its fingerprint, as of a moment.
    pub fn add(&mut self, fp: [u8; 32], name: String, now_unix: u64)
        requires
            old(self).valid(),
        ensures
            final(self)@ == with_entry(
                old(self)@,
                Entry { key: hex_text(fp@), name: name@, paired_at_unix: now_unix },
            ),
            final(self).valid(),
    {
        let key = hex_encode(&fp);
        self.put(KeyedPeer { key, peer: PairedPeer { name, paired_at_unix: now_unix } });
    }

    /// Forgets a peer. Says whether there was one.
    pub fn remove(&mut self, fp: &[u8; 32]) -> (r: bool)
        requires
            old(self).valid(),
        ensures
            r == has_key(old(self)@, hex_text(fp@)),
            final(self)@ == without_key(old(self)@, hex_text(fp@)),
            final(self).valid(),
    {
        let ghost before = self.peers@;
        let ghost es = self@;
        let key = to_chars(hex_encode(fp).as_str());
        let k = self.place(&key);
        proof {
            lemma_at_place(es, key@);
        }
        if self.is_at(k, &key) {
            let _gone = self.peers.remove(k);
            assert(entries(self.peers@) =~= entries(before).remove(k as int));
            assert forall|i: int, j: int| 0 <= i < j < self@.len() implies less(
                (#[trigger] self@[i]).key,
                (#[trigger] self@[j]).key,
            ) by {
                let a = if i < k {
                    i
                } else {
                    i + 1
                };
                let b = if j < k {
                    j
                } else {
                    j + 1
                };
                assert(self@[i] == es[a] && self@[j] == es[b]);
            }
            true
        } else {
            false
        }
    }

    /// The peers, in the order of their fingerprints.
    pub fn list(&self) -> (v: Vec<([u8; 32], PairedPeer)>)
        ensures
            listing(v@) == listed_from(self@, 0),
    {
        let mut v: Vec<([u8; 32], PairedPeer)> = Vec::new();
        let n: usize = self.peers.len();
        let mut i: usize = 0;
        assert(listing(v@) =~= seq![]);
        while i < n
            invariant
                i <= n,
                n == self.peers@.len(),
                listing(v@) + listed_from(self@, i as int) =~= listed_from(self@, 0),
            decreases n - i,
        {
            assert(self@[i as int] == self.peers@[i as int].entry());
            let p = &self.peers[i];
            if let Some(fp) = parse_fingerprint(p.key.as_str()) {
                let ghost before = v@;
                v.push(
                    (
                        fp,
                        PairedPeer {
                            name: p.peer.name.clone(),
                            paired_at_unix: p.peer.paired_at_unix,
                        },
                    ),
                );
                assert(listing(v@) =~= listing(before).push(
                    (fp@, p.peer.name@, p.peer.paired_at_unix),
                ));
            }
            i = i + 1;
        }
        v
    }

    pub fn find_by_name(&self, name: &str) -> (r: Option<[u8; 32]>)
        ensures
            fp_view(r) == named_from(listed_from(self@, 0), name@, 0),
    {
        let l = self.list();
        let wanted = to_chars(name);
        let n: usize = l.len();
        let mut i: usize = 0;
        while i < n
            invariant
                i <= n,
                n == l@.len(),
                wanted@ == name@,
                listing(l@) == listed_from(self@, 0),
                named_from(listing(l@), name@, 0) == named_from(listing(l@), name@, i as int),
            decreases n - i,
        {
            let c = to_chars(l[i].1.name.as_str());
            if same(&c, &wanted) {
                return Some(l[i].0);
            }
            i = i + 1;
        }
        None
    }
}

// ---- laws ----

/// A fingerprint written in hexadecimal reads back as itself.
pub proof fn law_fingerprints_read_back(fp: Seq<u8>)
    requires
        fp.len() == 32,
    ensures
        hex_text(fp).len() == 64,
        fingerprint_in(hex_text(fp)) == Some(fp),
{
    let s = hex_text(fp);
    assert forall|i: int| 0 <= i < s.len() implies is_hex_digit(#[trigger] s[i]) by {
        lemma_hex_char(
            if i % 2 == 0 {
                (fp[i / 2] / 16) as nat
            } else {
                (fp[i / 2] % 16) as nat
            },
        );
    }
    assert(all_hex_digits(s));
    let b = unhexed(s).unwrap();
    assert forall|i: int| 0 <= i < 32 implies b[i] == fp[i] by {
        lemma_hex_char((fp[i] / 16) as nat);
        lemma_hex_char((fp[i] % 16) as nat);
        assert((2 * i) / 2 == i && (2 * i + 1) / 2 == i);
        assert((2 * i) % 2 == 0 && (2 * i + 1) % 2 == 1);
    }
    assert(b =~= fp);
}

proof fn lemma_hex_char(d: nat)
    requires
        d < 16,
    ensures
        is_hex_digit(hex_char(d)),
        hex_digit(hex_char(d)) == d,
{
}

/// Two fingerprints with the same text are the same.
pub proof fn law_fingerprint_texts_are_distinct(a: Seq<u8>, b: Seq<u8>)
    requires
        a.len() == 32,
        b.len() == 32,
        hex_text(a) == hex_text(b),
    ensures
        a == b,
{
    law_fingerprints_read_back(a);
    law_fingerprints_read_back(b);
}

/// A peer that was added is paired, and no other peer's standing changes.
pub proof fn law_adding_pairs_one_peer(es: Seq<Entry>, e: Entry, key: Seq<char>)
    requires
        sorted(es),
    ensures
        has_key(with_entry(es, e), key) <==> key == e.key || has_key(es, key),
        sorted(with_entry(es, e)),
{
    let t = with_entry(es, e);
    let k = place_from(es, e.key, 0);
    lemma_with_entry(es, e);
    lemma_place(es, e.key, 0);
    if has_key(t, key) && key != e.key {
        let i = choose|i: int| 0 <= i < t.len() && (#[trigger] t[i]).key == key;
        let j = if k < es.len() && es[k].key == e.key || i < k {
            i
        } else {
            i - 1
        };
        assert(es[j].key == key);
    }
    if has_key(es, key) {
        let i = choose|i: int| 0 <= i < es.len() && (#[trigger] es[i]).key == key;
        let j = if k < es.len() && es[k].key == e.key || i < k {
            i
        } else {
            i + 1
        };
        if !(k < es.len() && es[k].key == e.key && i == k) {
            assert(t[j].key == key);
        }
    }
}

/// A peer that was removed is not paired, and no other peer's standing changes.
pub proof fn law_removing_unpairs_one_peer(es: Seq<Entry>, gone: Seq<char>, key: Seq<char>)
    requires
        sorted(es),
    ensures
        has_key(without_key(es, gone), key) <==> key != gone && has_key(es, key),
{
    let t = without_key(es, gone);
    let k = place_from(es, gone, 0);
    lemma_at_place(es, gone);
    if k < es.len() && es[k].key == gone {
        if has_key(t, key) {
            let i = choose|i: int| 0 <= i < t.len() && (#[trigger] t[i]).key == key;
            let j = if i < k {
                i
            } else {
                i + 1
            };
            assert(es[j].key == key);
        }
        if has_key(es, key) && key != gone {
            let i = choose|i: int| 0 <= i < es.len() && (#[trigger] es[i]).key == key;
            let j = if i < k {
                i
            } else {
                i - 1
            };
            assert(t[j].key == key);
        }
    }
}

/// A store that was saved and loaded is the same store.
pub proof fn law_a_store_survives_a_reload(es: Seq<Entry>)
    requires
        sorted(es),
    ensures
        with_all(seq![], es, 0) == es,
{
    assert(es.take(0) =~= seq![]);
    lemma_reload(es, 0);
}

proof fn lemma_reload(es: Seq<Entry>, i: int)
    requires
        sorted(es),
        0 <= i <= es.len(),
    ensures
        with_all(es.take(i), es, i) == es,
    decreases es.len() - i,
{
    if i < es.len() {
        let t = es.take(i);
        lemma_place(t, es[i].key, 0);
        let k = place_from(t, es[i].key, 0);
        if k < i {
            assert(t[k] == es[k]);
            assert(less(es[k].key, es[i].key));
        }
        assert(t.insert(i, es[i]) =~= es.take(i + 1));
        lemma_reload(es, i + 1);
    } else {
        assert(es.take(i) =~= es);
    }
}

/// A byte is written as two digits, the upper half first, with small letters.
pub proof fn law_how_bytes_are_written(b: Seq<u8>, i: int)
    requires
        0 <= i < b.len(),
    ensures
        ({
            let (s, hi, lo) = (hex_text(b), b[i] / 16, b[i] % 16);
            &&& s.len() == 2 * b.len()
            &&& s[2 * i] as u32 == if hi < 10 {
                48 + hi
            } else {
                87 + hi
            }
            &&& s[2 * i + 1] as u32 == if lo < 10 {
                48 + lo
            } else {
                87 + lo
            }
        }),
{
    assert((2 * i) / 2 == i && (2 * i + 1) / 2 == i);
    assert((2 * i) % 2 == 0 && (2 * i + 1) % 2 == 1);
}

/// A fingerprint is sixty-four hexadecimal digits and nothing else; each two of them
/// are one byte.
pub proof fn law_what_a_fingerprint_is(s: Seq<char>, i: int)
    ensures
        fingerprint_in(s) is Some <==> s.len() == 64 && (forall|j: int|
            0 <= j < 64 ==> ('0' <= #[trigger] s[j] <= '9' || 'a' <= s[j] <= 'f' || 'A' <= s[j]
                <= 'F')),
        fingerprint_in(s) matches Some(fp) ==> fp.len() == 32 && (0 <= i < 32 ==> fp[i]
            == crate::number::hex_val(s.subrange(2 * i, 2 * i + 2))),
{
    if fingerprint_in(s) is Some && 0 <= i < 32 {
        let t = s.subrange(2 * i, 2 * i + 2);
        reveal_with_fuel(crate::number::hex_val, 3);
        assert(t.drop_last().drop_last() =~= Seq::empty());
        assert(t.drop_last().last() == s[2 * i]);
        assert(t.last() == s[2 * i + 1]);
        assert(is_hex_digit(s[2 * i]) && is_hex_digit(s[2 * i + 1]));
    }
}

/// The peers that are listed are those whose key is a fingerprint, with their names
/// and times, and no others.
pub proof fn law_which_peers_are_listed(
    es: Seq<Entry>,
    fp: Seq<u8>,
    name: Seq<char>,
    paired_at_unix: u64,
)
    ensures
        listed_from(es, 0).contains((fp, name, paired_at_unix)) <==> exists|k: int|
            0 <= k < es.len() && fingerprint_in((#[trigger] es[k]).key) == Some(fp) && es[k].name
                == name && es[k].paired_at_unix == paired_at_unix,
{
    lemma_listed(es, fp, name, paired_at_unix, 0);
}

proof fn lemma_listed(
    es: Seq<Entry>,
    fp: Seq<u8>,
    name: Seq<char>,
    paired_at_unix: u64,
    i: int,
)
    requires
        0 <= i <= es.len(),
    ensures
        listed_from(es, i).contains((fp, name, paired_at_unix)) <==> exists|k: int|
            i <= k < es.len() && fingerprint_in((#[trigger] es[k]).key) == Some(fp) && es[k].name
                == name && es[k].paired_at_unix == paired_at_unix,
    decreases es.len() - i,
{
    if i < es.len() {
        lemma_listed(es, fp, name, paired_at_unix, i + 1);
        let x = (fp, name, paired_at_unix);
        let l = listed_from(es, i + 1);
        if let Some(f) = fingerprint_in(es[i].key) {
            let h = (f, es[i].name, es[i].paired_at_unix);
            let all = seq![h] + l;
            assert(all[0] == h);
            if l.contains(x) {
                let j = l.index_of(x);
                assert(all[j + 1] == x);
            }
            if all.contains(x) {
                let j = all.index_of(x);
                if j > 0 {
                    assert(l[j - 1] == x);
                }
            }
        }
    }
}

/// A name is that of the first peer listed under it, and of nobody if none is.
pub proof fn law_the_first_of_a_name(
    l: Seq<(Seq<u8>, Seq<char>, u64)>,
    name: Seq<char>,
    k: int,
)
    ensures
        0 <= k < l.len() && l[k].1 == name && (forall|j: int|
            0 <= j < k ==> (#[trigger] l[j]).1 != name) ==> named_from(l, name, 0) == Some(l[k].0),
        (forall|j: int| 0 <= j < l.len() ==> (#[trigger] l[j]).1 != name) ==> named_from(l, name, 0)
            is None,
{
    lemma_named(l, name, k, 0);
}

proof fn lemma_named(l: Seq<(Seq<u8>, Seq<char>, u64)>, name: Seq<char>, k: int, i: int)
    requires
        0 <= i,
    ensures
        i <= k < l.len() && l[k].1 == name && (forall|j: int|
            0 <= j < k ==> (#[trigger] l[j]).1 != name) ==> named_from(l, name, i) == Some(l[k].0),
        (forall|j: int| 0 <= j < l.len() ==> (#[trigger] l[j]).1 != name) ==> named_from(l, name, i)
            is None,
    decreases l.len() - i,
{
    if i < l.len() {
        lemma_named(l, name, k, i + 1);
    }
}

} // verus!
