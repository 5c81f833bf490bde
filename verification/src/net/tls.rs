//! Whose certificate is good enough.
use vstd::prelude::*;
use crate::net::identity::{fingerprint_of, sha256};

verus! {

/// Whom to trust: anyone, which is for pairing, or those that are known.
#[derive(Debug, Clone)]
pub enum TrustRule {
    Any,
    Known(Vec<[u8; 32]>),
}

/// Whether a fingerprint is one of some.
pub open spec fn is_known(known: Seq<[u8; 32]>, fp: Seq<u8>) -> bool {
    exists|i: int| 0 <= i < known.len() && (#[trigger] known[i])@ == fp
}

impl TrustRule {
    pub open spec fn trusts(self, fp: Seq<u8>) -> bool {
        match self {
            TrustRule::Any => true,
            TrustRule::Known(known) => is_known(known@, fp),
        }
    }

    /// Whether a fingerprint is trusted.
    pub fn trusted(&self, fp: &[u8; 32]) -> (r: bool)
        ensures
            r == self.trusts(fp@),
    {
        match self {
            TrustRule::Any => true,
            TrustRule::Known(known) => {
                let n: usize = known.len();
                let mut i: usize = 0;
                while i < n
                    invariant
                        i <= n,
                        n == known@.len(),
                        *self == TrustRule::Known(*known),
                        forall|j: int| 0 <= j < i ==> (#[trigger] known@[j])@ != fp@,
                    decreases n - i,
                {
                    if same_fingerprint(&known[i], fp) {
                        assert(known@[i as int]@ == fp@);
                        return true;
                    }
                    i = i + 1;
                }
                false
            },
        }
    }

    /// Checks the certificate that a peer presents.
    pub fn check(&self, cert_der: &[u8]) -> (r: Result<(), Untrusted>)
        ensures
            r is Ok <==> self.trusts(sha256(cert_der@)),
    {
        if self.trusted(&fingerprint_of(cert_der)) {
            Ok(())
        } else {
            Err(Untrusted)
        }
    }
}

/// Checks the certificate that a peer presents by a rule of the caller's own,
/// which is asked about the certificate's fingerprint.
pub fn check_with<F: Fn(&[u8; 32]) -> bool>(trust: F, cert_der: &[u8]) -> (r: Result<(), Untrusted>)
    requires
        forall|fp: &[u8; 32]| call_requires(trust, (fp,)),
    ensures
        exists|fp: &[u8; 32], yes: bool| #[trigger]
            call_ensures(trust, (fp,), yes) && fp@ == sha256(cert_der@) && (r is Ok <==> yes),
{
    let fp = fingerprint_of(cert_der);
    let yes = trust(&fp);
    assert(call_ensures(trust, (&fp,), yes));
    if yes {
        Ok(())
    } else {
        Err(Untrusted)
    }
}

/// The peer's certificate is not one of a paired peer.
#[derive(Debug, Clone, Copy, PartialEq, Eq, Structural)]
pub struct Untrusted;

impl Untrusted {
    pub fn message(&self) -> (s: &'static str)
        ensures
            s@ == "peer certificate is not paired"@,
    {
        "peer certificate is not paired"
    }
}

/// Whether two fingerprints are the same.
pub fn same_fingerprint(a: &[u8; 32], b: &[u8; 32]) -> (r: bool)
    ensures
        r == (a@ == b@),
{
    let mut i: usize = 0;
    while i < 32
        invariant
            i <= 32,
            forall|j: int| 0 <= j < i ==> a@[j] == b@[j],
        decreases 32 - i,
    {
        if a[i] != b[i] {
            return false;
        }
        i = i + 1;
    }
    assert(a@ =~= b@);
    true
}

/// Anyone is trusted.
pub fn accept_any() -> (r: TrustRule)
    ensures
        r == TrustRule::Any,
{
    TrustRule::Any
}

/// Those that are known are trusted.
pub fn trust_fingerprints(known: Vec<[u8; 32]>) -> (r: TrustRule)
    ensures
        r == TrustRule::Known(known),
{
    TrustRule::Known(known)
}

// ---- laws ----

/// Where nobody is known, nobody is trusted.
pub proof fn law_an_unpaired_peer_is_refused(known: Vec<[u8; 32]>, fp: Seq<u8>)
    requires
        known@.len() == 0,
    ensures
        !TrustRule::Known(known).trusts(fp),
{
}

/// Where only some are trusted, each of them is and nobody else; where anyone is,
/// everyone is.
pub proof fn law_who_is_trusted(known: Vec<[u8; 32]>, fp: Seq<u8>, i: int)
    ensures
        TrustRule::Any.trusts(fp),
        0 <= i < known@.len() ==> TrustRule::Known(known).trusts(known@[i]@),
        (forall|j: int| 0 <= j < known@.len() ==> (#[trigger] known@[j])@ != fp)
            ==> !TrustRule::Known(known).trusts(fp),
{
    if 0 <= i < known@.len() {
        assert(known@[i]@ == known@[i]@);
    }
}

} // verus!
