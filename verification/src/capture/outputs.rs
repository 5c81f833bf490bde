//! What monitors are there to cast.
//!
//! The numbering is the graphics adapter's, not the order Windows shows in
//! display settings — but a name and a resolution are enough to recognise
//! which is which without casting to find out.
use vstd::prelude::*;
use crate::number::{dec, push_dec};
use crate::text::{part, push_chars, push_str, to_chars, to_string};

verus! {

#[derive(Debug, Clone, PartialEq, Eq)]
pub struct Output {
    /// What to capture from, and what `CASTR_OUTPUT` sets.
    pub index: u32,
    /// The adapter's name for it, like `\\.\DISPLAY1`.
    pub device_name: String,
    pub width: u32,
    pub height: u32,
    /// The desktop's origin is on this monitor, which is what Windows means by
    /// the primary display.
    pub primary: bool,
    /// Windows has this monitor turned. Worth surfacing: the capture path does
    /// not consult rotation, so casting one arrives sideways.
    pub rotated: bool,
}

/// What a monitor is.
#[verifier::ext_equal]
pub struct OutputView {
    pub index: u32,
    pub device_name: Seq<char>,
    pub width: u32,
    pub height: u32,
    pub primary: bool,
    pub rotated: bool,
}

impl View for Output {
    type V = OutputView;

    open spec fn view(&self) -> OutputView {
        OutputView {
            index: self.index,
            device_name: self.device_name@,
            width: self.width,
            height: self.height,
            primary: self.primary,
            rotated: self.rotated,
        }
    }
}

pub open spec fn output_views(v: Seq<Output>) -> Seq<OutputView> {
    Seq::new(v.len(), |i: int| v[i]@)
}

/// What an adapter says of one of its outputs.
#[derive(Debug, Clone)]
pub struct OutputDesc {
    /// The name in UTF-16, filled up with zeros.
    pub device_name: Vec<u16>,
    pub left: i32,
    pub top: i32,
    pub right: i32,
    pub bottom: i32,
    pub attached: bool,
    /// A `DXGI_MODE_ROTATION`.
    pub rotation: i32,
}

/// `DXGI_MODE_ROTATION_ROTATE90`.
pub const ROTATE90: i32 = 2;

/// `DXGI_MODE_ROTATION_ROTATE270`.
pub const ROTATE270: i32 = 4;

/// The text that UTF-16 stands for: a high and a low surrogate are one
/// character, a surrogate without its other half is replaced, and any other unit
/// is the character it numbers.
pub open spec fn utf16_text(units: Seq<u16>) -> Seq<char>
    decreases units.len(),
{
    if units.len() == 0 {
        Seq::empty()
    } else if units[0] < 0xd800 || units[0] > 0xdfff {
        seq![units[0] as char] + utf16_text(units.skip(1))
    } else if units[0] < 0xdc00 && units.len() > 1 && 0xdc00 <= units[1] <= 0xdfff {
        seq![(0x10000 + (units[0] - 0xd800) * 0x400 + (units[1] - 0xdc00)) as char] + utf16_text(
            units.skip(2),
        )
    } else {
        seq!['\u{fffd}'] + utf16_text(units.skip(1))
    }
}

/// Calls `String::from_utf16_lossy`: it decodes UTF-16, with each surrogate that
/// has no other half replaced by U+FFFD.
#[verifier::external_body]
fn utf16_lossy(units: &[u16]) -> (s: String)
    ensures
        s@ == utf16_text(units@),
{
    String::from_utf16_lossy(units)
}

/// Where the zeros at the end of the first `j` characters begin.
pub open spec fn before_zeros(s: Seq<char>, j: int) -> int
    decreases j,
{
    if j <= 0 {
        0
    } else if s[j - 1] == '\0' {
        before_zeros(s, j - 1)
    } else {
        j
    }
}

/// A text without the zeros at its end.
pub open spec fn without_zeros(s: Seq<char>) -> Seq<char> {
    s.take(before_zeros(s, s.len() as int))
}

/// The text without the zeros at its end.
pub fn trim_zeros(s: &str) -> (r: String)
    ensures
        r@ == without_zeros(s@),
{
    let v = to_chars(s);
    let mut j: usize = v.len();
    while j > 0 && v[j - 1] == '\0'
        invariant
            j <= v@.len(),
            v@ == s@,
            before_zeros(s@, s@.len() as int) == before_zeros(s@, j as int),
        decreases j,
    {
        j = j - 1;
    }
    assert(v@.subrange(0, j as int) =~= s@.take(j as int));
    to_string(part(v.as_slice(), 0, j))
}

/// How far apart two edges are.
pub open spec fn extent(a: i32, b: i32) -> u32 {
    (if b >= a {
        b - a
    } else {
        a - b
    }) as u32
}

fn extent_of(a: i32, b: i32) -> (r: u32)
    ensures
        r == extent(a, b),
{
    let d: i64 = b as i64 - a as i64;
    if d >= 0 {
        d as u32
    } else {
        (-d) as u32
    }
}

/// What an output is to be offered as.
pub open spec fn offered(index: u32, d: OutputDesc) -> OutputView {
    OutputView {
        index,
        device_name: without_zeros(utf16_text(d.device_name@)),
        width: extent(d.left, d.right),
        height: extent(d.top, d.bottom),
        // The primary monitor is the one the desktop's origin sits on; nothing
        // labels it any more directly than that.
        primary: d.left == 0 && d.top == 0,
        rotated: d.rotation == ROTATE90 || d.rotation == ROTATE270,
    }
}

/// The outputs of one adapter from `i` on: those with a description and a
/// desktop on them. One with none cannot be duplicated, so offering it would
/// only produce a cast that fails to start.
pub open spec fn offered_from(descs: Seq<Option<OutputDesc>>, i: int) -> Seq<OutputView>
    decreases descs.len() - i,
{
    if i >= descs.len() || i < 0 {
        seq![]
    } else {
        match descs[i] {
            Some(d) if d.attached => seq![offered(i as u32, d)] + offered_from(descs, i + 1),
            _ => offered_from(descs, i + 1),
        }
    }
}

/// The outputs of the first adapter from `i` on that has any.
pub open spec fn first_offer(adapters: Seq<Vec<Option<OutputDesc>>>, i: int) -> Seq<OutputView>
    decreases adapters.len() - i,
{
    if i >= adapters.len() || i < 0 {
        seq![]
    } else if offered_from(adapters[i]@, 0).len() > 0 {
        offered_from(adapters[i]@, 0)
    } else {
        first_offer(adapters, i + 1)
    }
}

/// The outputs of one adapter that can be cast.
pub fn outputs_of(descs: &Vec<Option<OutputDesc>>) -> (found: Vec<Output>)
    requires
        descs@.len() <= u32::MAX,
    ensures
        output_views(found@) == offered_from(descs@, 0),
{
    let mut found: Vec<Output> = Vec::new();
    let n: usize = descs.len();
    let mut i: usize = 0;
    assert(output_views(found@) =~= seq![]);
    while i < n
        invariant
            i <= n,
            n == descs@.len(),
            n <= u32::MAX,
            output_views(found@) + offered_from(descs@, i as int) =~= offered_from(descs@, 0),
        decreases n - i,
    {
        if let Some(d) = &descs[i] {
            if d.attached {
                let name = utf16_lossy(d.device_name.as_slice());
                let ghost before = found@;
                let o = Output {
                    index: i as u32,
                    device_name: trim_zeros(name.as_str()),
                    width: extent_of(d.left, d.right),
                    height: extent_of(d.top, d.bottom),
                    primary: d.left == 0 && d.top == 0,
                    rotated: d.rotation == ROTATE90 || d.rotation == ROTATE270,
                };
                assert(o@ =~= offered(i as u32, *d));
                found.push(o);
                assert(output_views(found@) =~= output_views(before) + seq![
                    offered(i as u32, *d),
                ]);
            }
        }
        i = i + 1;
    }
    found
}

/// Every monitor attached to the adapter that owns the desktop. Only the
/// adapter that actually drives monitors is of interest: once one has outputs,
/// a second adapter's indices would collide with it, and a capture only ever
/// looks at the first.
pub fn outputs(adapters: &Vec<Vec<Option<OutputDesc>>>) -> (found: Vec<Output>)
    requires
        forall|i: int| 0 <= i < adapters@.len() ==> (#[trigger] adapters@[i])@.len() <= u32::MAX,
    ensures
        output_views(found@) == first_offer(adapters@, 0),
{
    let n: usize = adapters.len();
    let mut i: usize = 0;
    while i < n
        invariant
            i <= n,
            n == adapters@.len(),
            forall|i: int|
                0 <= i < adapters@.len() ==> (#[trigger] adapters@[i])@.len() <= u32::MAX,
            first_offer(adapters@, 0) == first_offer(adapters@, i as int),
        decreases n - i,
    {
        let found = outputs_of(&adapters[i]);
        assert(output_views(found@).len() == found@.len());
        if found.len() > 0 {
            return found;
        }
        i = i + 1;
    }
    let found: Vec<Output> = Vec::new();
    assert(output_views(found@) =~= seq![]);
    found
}

/// Where the last piece between backslashes of the first `j` characters begins.
pub open spec fn after_backslash(s: Seq<char>, j: int) -> int
    decreases j,
{
    if j <= 0 {
        0
    } else if s[j - 1] == '\\' {
        j
    } else {
        after_backslash(s, j - 1)
    }
}

pub open spec fn shortened(s: Seq<char>) -> Seq<char> {
    s.skip(after_backslash(s, s.len() as int))
}

/// `\\.\DISPLAY1` reads as `DISPLAY1`; the prefix is on every one of them and
/// tells the reader nothing.
pub fn short_name(device_name: &str) -> (r: String)
    ensures
        r@ == shortened(device_name@),
{
    let v = to_chars(device_name);
    let n: usize = v.len();
    let mut j: usize = n;
    while j > 0 && v[j - 1] != '\\'
        invariant
            j <= n,
            n == v@.len(),
            v@ == device_name@,
            after_backslash(v@, n as int) == after_backslash(v@, j as int),
        decreases j,
    {
        j = j - 1;
    }
    assert(v@.subrange(j as int, n as int) =~= v@.skip(j as int));
    to_string(part(v.as_slice(), j, n))
}

/// How a monitor is named in a picker.
pub open spec fn label_text(o: OutputView) -> Seq<char> {
    shortened(o.device_name) + "  "@ + dec(o.width as nat) + "x"@ + dec(o.height as nat) + (
    if o.primary {
        "  (primary)"@
    } else {
        seq![]
    }) + (if o.rotated {
        "  (rotated - the cast will appear sideways)"@
    } else {
        seq![]
    })
}

/// How to name a monitor in a picker.
pub fn label(o: &Output) -> (r: String)
    ensures
        r@ == label_text(o@),
{
    let mut s = to_chars(short_name(o.device_name.as_str()).as_str());
    push_str(&mut s, "  ");
    push_dec(&mut s, o.width as u64);
    push_str(&mut s, "x");
    push_dec(&mut s, o.height as u64);
    if o.primary {
        push_str(&mut s, "  (primary)");
    }
    if o.rotated {
        push_str(&mut s, "  (rotated - the cast will appear sideways)");
    }
    assert(s@ =~= label_text(o@));
    to_string(&s)
}

/// The first primary output from `i` on, or the length.
pub open spec fn primary_from(v: Seq<Output>, i: int) -> int
    decreases v.len() - i,
{
    if i >= v.len() || i < 0 {
        v.len() as int
    } else if v[i].primary {
        i
    } else {
        primary_from(v, i + 1)
    }
}

/// Which monitor to offer before anyone chooses: the primary, or the first.
pub fn default_index(list: &[Output]) -> (r: u32)
    ensures
        r == if primary_from(list@, 0) < list@.len() {
            list@[primary_from(list@, 0)].index
        } else if list@.len() > 0 {
            list@[0].index
        } else {
            0
        },
{
    let n: usize = list.len();
    let mut i: usize = 0;
    while i < n
        invariant
            i <= n,
            n == list@.len(),
            primary_from(list@, 0) == primary_from(list@, i as int),
        decreases n - i,
    {
        if list[i].primary {
            return list[i].index;
        }
        i = i + 1;
    }
    if n > 0 {
        list[0].index
    } else {
        0
    }
}

// ---- laws ----

/// The monitor that is offered first is one of those that are offered.
pub proof fn law_the_default_is_on_the_list(list: Seq<Output>)
    requires
        list.len() > 0,
    ensures
        0 <= primary_from(list, 0) <= list.len(),
        primary_from(list, 0) < list.len() ==> list[primary_from(list, 0)].primary,
        primary_from(list, 0) == list.len() ==> forall|i: int|
            0 <= i < list.len() ==> !(#[trigger] list[i]).primary,
{
    lemma_primary(list, 0);
}

proof fn lemma_primary(list: Seq<Output>, i: int)
    requires
        0 <= i <= list.len(),
    ensures
        i <= primary_from(list, i) <= list.len(),
        primary_from(list, i) < list.len() ==> list[primary_from(list, i)].primary,
        forall|k: int| i <= k < primary_from(list, i) ==> !(#[trigger] list[k]).primary,
    decreases list.len() - i,
{
    if i < list.len() && !list[i].primary {
        lemma_primary(list, i + 1);
    }
}

/// Nothing that has no desktop on it is ever offered.
pub proof fn law_only_desktops_are_offered(descs: Seq<Option<OutputDesc>>, k: int)
    requires
        descs.len() <= u32::MAX,
        0 <= k < offered_from(descs, 0).len(),
    ensures
        ({
            let o = offered_from(descs, 0)[k];
            0 <= o.index < descs.len() && (descs[o.index as int] matches Some(d) && d.attached && o
                == offered(o.index, d))
        }),
{
    lemma_offered(descs, 0, k);
}

proof fn lemma_offered(descs: Seq<Option<OutputDesc>>, i: int, k: int)
    requires
        descs.len() <= u32::MAX,
        0 <= i,
        0 <= k < offered_from(descs, i).len(),
    ensures
        ({
            let o = offered_from(descs, i)[k];
            0 <= o.index < descs.len() && (descs[o.index as int] matches Some(d) && d.attached && o
                == offered(o.index, d))
        }),
    decreases descs.len() - i,
{
    match descs[i] {
        Some(d) if d.attached => {
            if k > 0 {
                lemma_offered(descs, i + 1, k - 1);
            }
        },
        _ => {
            lemma_offered(descs, i + 1, k);
        },
    }
}

/// What is offered of an output: how far its edges are apart, whichever way round
/// they are given; that it is the primary one if its corner is the origin; and that
/// it is rotated if it is turned by a quarter, either way.
pub proof fn law_what_is_offered(index: u32, d: OutputDesc)
    ensures
        ({
            let o = offered(index, d);
            &&& o.index == index
            &&& o.width == d.right - d.left || o.width == d.left - d.right
            &&& o.height == d.bottom - d.top || o.height == d.top - d.bottom
            &&& o.primary <==> d.left == 0 && d.top == 0
            &&& o.rotated <==> d.rotation == 2 || d.rotation == 4
        }),
{
}

/// A text loses the zeros at its end, all of them and nothing else.
pub proof fn law_zeros_are_cut_off(s: Seq<char>)
    ensures
        ({
            let t = without_zeros(s);
            &&& t.len() <= s.len()
            &&& t == s.take(t.len() as int)
            &&& t.len() > 0 ==> t.last() != '\0'
            &&& forall|i: int| t.len() <= i < s.len() ==> #[trigger] s[i] == '\0'
        }),
{
    lemma_before_zeros(s, s.len() as int);
}

proof fn lemma_before_zeros(s: Seq<char>, j: int)
    requires
        0 <= j <= s.len(),
    ensures
        ({
            let k = before_zeros(s, j);
            &&& 0 <= k <= j
            &&& k > 0 ==> s[k - 1] != '\0'
            &&& forall|i: int| k <= i < j ==> #[trigger] s[i] == '\0'
        }),
    decreases j,
{
    if j > 0 && s[j - 1] == '\0' {
        lemma_before_zeros(s, j - 1);
    }
}

/// A name is shortened to what is behind its last backslash.
pub proof fn law_names_are_shortened(s: Seq<char>)
    ensures
        ({
            let t = shortened(s);
            let k = s.len() - t.len();
            &&& 0 <= k <= s.len()
            &&& t == s.skip(k)
            &&& k > 0 ==> s[k - 1] == '\\'
            &&& forall|i: int| 0 <= i < t.len() ==> #[trigger] t[i] != '\\'
        }),
{
    lemma_after_backslash(s, s.len() as int);
}

proof fn lemma_after_backslash(s: Seq<char>, j: int)
    requires
        0 <= j <= s.len(),
    ensures
        ({
            let k = after_backslash(s, j);
            &&& 0 <= k <= j
            &&& k > 0 ==> s[k - 1] == '\\'
            &&& forall|i: int| k <= i < j ==> #[trigger] s[i] != '\\'
        }),
    decreases j,
{
    if j > 0 && s[j - 1] != '\\' {
        lemma_after_backslash(s, j - 1);
    }
}

/// Every output with a desktop on it is offered, in the order of the adapter.
pub proof fn law_every_desktop_is_offered(descs: Seq<Option<OutputDesc>>, i: int)
    requires
        descs.len() <= u32::MAX,
        0 <= i < descs.len(),
        descs[i] matches Some(d) && d.attached,
    ensures
        offered_from(descs, 0).contains(offered(i as u32, descs[i]->0)),
        forall|a: int, b: int|
            0 <= a < b < offered_from(descs, 0).len() ==> (#[trigger] offered_from(
                descs,
                0,
            )[a]).index < (#[trigger] offered_from(descs, 0)[b]).index,
{
    lemma_all_offered(descs, i, 0);
}

proof fn lemma_all_offered(descs: Seq<Option<OutputDesc>>, i: int, j: int)
    requires
        descs.len() <= u32::MAX,
        0 <= j <= descs.len(),
        0 <= i < descs.len(),
        descs[i] matches Some(d) && d.attached,
    ensures
        ({
            let all = offered_from(descs, j);
            &&& j <= i ==> all.contains(offered(i as u32, descs[i]->0))
            &&& forall|a: int| 0 <= a < all.len() ==> j <= (#[trigger] all[a]).index
            &&& forall|a: int, b: int|
                0 <= a < b < all.len() ==> (#[trigger] all[a]).index < (#[trigger] all[b]).index
        }),
    decreases descs.len() - j,
{
    if j < descs.len() {
        lemma_all_offered(descs, i, j + 1);
        let all = offered_from(descs, j);
        let rest = offered_from(descs, j + 1);
        match descs[j] {
            Some(d) if d.attached => {
                let first = offered(j as u32, d);
                assert(all == seq![first] + rest);
                assert(all[0] == first);
                if j < i {
                    let o = offered(i as u32, descs[i]->0);
                    let k = choose|k: int| 0 <= k < rest.len() && rest[k] == o;
                    assert(all[k + 1] == o);
                }
                assert forall|a: int| 0 <= a < all.len() implies j <= (#[trigger] all[a]).index by {
                    if a > 0 {
                        assert(all[a] == rest[a - 1]);
                    }
                }
                assert forall|a: int, b: int| 0 <= a < b < all.len() implies (#[trigger] all[a]).index
                    < (#[trigger] all[b]).index by {
                    assert(all[b] == rest[b - 1]);
                    if a > 0 {
                        assert(all[a] == rest[a - 1]);
                    }
                }
            },
            _ => {},
        }
    }
}

/// The outputs that are offered are those of the first adapter that has any.
pub proof fn law_the_first_adapter_counts(adapters: Seq<Vec<Option<OutputDesc>>>, k: int)
    ensures
        0 <= k < adapters.len() && offered_from(adapters[k]@, 0).len() > 0 && (forall|i: int|
            0 <= i < k ==> offered_from((#[trigger] adapters[i])@, 0).len() == 0) ==> first_offer(
            adapters,
            0,
        ) == offered_from(adapters[k]@, 0),
        (forall|i: int|
            0 <= i < adapters.len() ==> offered_from((#[trigger] adapters[i])@, 0).len() == 0)
            ==> first_offer(adapters, 0).len() == 0,
{
    lemma_first_offer(adapters, k, 0);
}

proof fn lemma_first_offer(adapters: Seq<Vec<Option<OutputDesc>>>, k: int, j: int)
    requires
        0 <= j,
    ensures
        j <= k < adapters.len() && offered_from(adapters[k]@, 0).len() > 0 && (forall|i: int|
            0 <= i < k ==> offered_from((#[trigger] adapters[i])@, 0).len() == 0) ==> first_offer(
            adapters,
            j,
        ) == offered_from(adapters[k]@, 0),
        (forall|i: int|
            0 <= i < adapters.len() ==> offered_from((#[trigger] adapters[i])@, 0).len() == 0)
            ==> first_offer(adapters, j).len() == 0,
    decreases adapters.len() - j,
{
    if j < adapters.len() {
        lemma_first_offer(adapters, k, j + 1);
    }
}

} // verus!
