//! Minimal Annex B inspection: enough to reject junk before it reaches the
//! hardware and to recognise keyframes.
use vstd::prelude::*;

verus! {

/// Why an access unit is refused.
#[derive(Debug, Clone, Copy, PartialEq, Eq, Structural)]
pub enum AccessUnitError {
    Empty,
    NoStartCode,
}

impl AccessUnitError {
    /// The error in words.
    pub fn message(&self) -> (s: &'static str)
        ensures
            s@ == match self {
                AccessUnitError::Empty => "empty access unit"@,
                AccessUnitError::NoStartCode => "access unit is not Annex B (no start code)"@,
            },
    {
        match self {
            AccessUnitError::Empty => "empty access unit",
            AccessUnitError::NoStartCode => "access unit is not Annex B (no start code)",
        }
    }
}

/// A three-byte start code at `i`.
pub open spec fn code_at(data: Seq<u8>, i: int) -> bool {
    0 <= i && i + 3 <= data.len() && data[i] == 0 && data[i + 1] == 0 && data[i + 2] == 1
}

/// A start code at the very beginning, of three bytes or of four.
pub open spec fn begins(data: Seq<u8>) -> bool {
    code_at(data, 0) || (data.len() >= 4 && data[0] == 0 && code_at(data, 1))
}

/// The types of the units from `i` on: the low five bits of the byte after
/// each start code.
pub open spec fn types_from(data: Seq<u8>, i: int) -> Seq<u8>
    decreases data.len() - i,
{
    if i + 3 > data.len() {
        Seq::empty()
    } else if !code_at(data, i) {
        types_from(data, i + 1)
    } else if i + 3 < data.len() {
        seq![(data[i + 3] % 32) as u8] + types_from(data, i + 3)
    } else {
        types_from(data, i + 3)
    }
}

pub fn starts_with_start_code(data: &[u8]) -> (r: bool)
    ensures
        r == begins(data@),
{
    (data.len() >= 3 && data[0] == 0 && data[1] == 0 && data[2] == 1) || (data.len() >= 4 && data[0]
        == 0 && data[1] == 0 && data[2] == 0 && data[3] == 1)
}

/// NAL unit types (low 5 bits of the byte after each start code), in order.
pub fn nal_types(data: &[u8]) -> (out: Vec<u8>)
    ensures
        out@ == types_from(data@, 0),
{
    let mut out: Vec<u8> = Vec::new();
    let mut i: usize = 0;
    assert(out@ + types_from(data@, 0) =~= types_from(data@, 0));
    while data.len() >= 3 && i <= data.len() - 3
        invariant
            i <= data@.len(),
            out@ + types_from(data@, i as int) == types_from(data@, 0),
        decreases data@.len() - i,
    {
        let ghost before = out@;
        if data[i] == 0 && data[i + 1] == 0 && data[i + 2] == 1 {
            if i + 3 < data.len() {
                out.push(data[i + 3] % 32);
                assert(out@ + types_from(data@, i + 3) =~= before + types_from(data@, i as int));
            }
            i = i + 3;
        } else {
            i = i + 1;
        }
    }
    assert(out@ =~= types_from(data@, 0));
    out
}

fn contains(v: &Vec<u8>, x: u8) -> (r: bool)
    ensures
        r == v@.contains(x),
{
    let mut i: usize = 0;
    while i < v.len()
        invariant
            i <= v@.len(),
            forall|j: int| 0 <= j < i ==> v@[j] != x,
        decreases v@.len() - i,
    {
        if v[i] == x {
            assert(v@[i as int] == x);
            return true;
        }
        i = i + 1;
    }
    false
}

/// Whether a sequence parameter set is among the units.
pub fn has_sps(data: &[u8]) -> (r: bool)
    ensures
        r == types_from(data@, 0).contains(7u8),
{
    contains(&nal_types(data), 7)
}

/// Whether a keyframe's slice is among the units.
pub fn is_idr(data: &[u8]) -> (r: bool)
    ensures
        r == types_from(data@, 0).contains(5u8),
{
    contains(&nal_types(data), 5)
}

/// What is wrong with an access unit, if anything.
pub open spec fn unit_fault(data: Seq<u8>) -> Result<(), AccessUnitError> {
    if data.len() == 0 {
        Err(AccessUnitError::Empty)
    } else if !begins(data) {
        Err(AccessUnitError::NoStartCode)
    } else {
        Ok(())
    }
}

pub fn check_access_unit(data: &[u8]) -> (r: Result<(), AccessUnitError>)
    ensures
        r == unit_fault(data@),
{
    if data.len() == 0 {
        return Err(AccessUnitError::Empty);
    }
    if !starts_with_start_code(data) {
        return Err(AccessUnitError::NoStartCode);
    }
    Ok(())
}

// ---- laws ----

/// The types of the units are those of all start codes, `00 00 01` and the unit's
/// byte, of which the low five bits count: a type is among them exactly if there is
/// such a start code somewhere.
pub proof fn law_every_start_code_counts(data: Seq<u8>, t: u8)
    ensures
        types_from(data, 0).contains(t) <==> exists|i: int|
            0 <= i && i + 3 < data.len() && data[i] == 0 && data[i + 1] == 0 && data[i + 2] == 1
                && #[trigger] unit_type(data, i) == t,
{
    lemma_types(data, t, 0);
    if types_from(data, 0).contains(t) {
        let i = choose|i: int|
            0 <= i && i + 3 < data.len() && code_at(data, i) && #[trigger] unit_type(data, i) == t;
        assert(unit_type(data, i) == t);
    }
}

/// The type in the byte after a start code: its low five bits.
pub open spec fn unit_type(data: Seq<u8>, i: int) -> u8 {
    data[i + 3] & 0x1f
}

proof fn lemma_types(data: Seq<u8>, t: u8, from: int)
    requires
        0 <= from,
    ensures
        types_from(data, from).contains(t) <==> exists|i: int|
            from <= i && i + 3 < data.len() && code_at(data, i) && #[trigger] unit_type(data, i)
                == t,
    decreases data.len() - from,
{
    if from + 3 <= data.len() {
        let all = types_from(data, from);
        if !code_at(data, from) {
            lemma_types(data, t, from + 1);
        } else {
            lemma_types(data, t, from + 3);
            let rest = types_from(data, from + 3);
            assert(!code_at(data, from + 1) && !code_at(data, from + 2));
            if from + 3 < data.len() {
                let b = data[from + 3];
                assert(b % 32 == b & 0x1f) by (bit_vector);
                assert(all == seq![unit_type(data, from)] + rest);
                if all.contains(t) {
                    let k = choose|k: int| 0 <= k < all.len() && all[k] == t;
                    if k > 0 {
                        assert(rest[k - 1] == t);
                    } else {
                        assert(unit_type(data, from) == t);
                    }
                }
                if rest.contains(t) {
                    let k = choose|k: int| 0 <= k < rest.len() && rest[k] == t;
                    assert(all[k + 1] == t);
                }
                if unit_type(data, from) == t {
                    assert(all[0] == t);
                }
            }
        }
    }
}

/// An access unit is taken if it begins with a start code, with or without a zero
/// ahead of it.
pub proof fn law_which_units_are_taken(data: Seq<u8>)
    ensures
        data.len() == 0 <==> unit_fault(data) == Err::<(), AccessUnitError>(AccessUnitError::Empty),
        unit_fault(data) is Ok <==> {
            ||| data.len() >= 3 && data[0] == 0 && data[1] == 0 && data[2] == 1
            ||| data.len() >= 4 && data[0] == 0 && data[1] == 0 && data[2] == 0 && data[3] == 1
        },
{
}

} // verus!
