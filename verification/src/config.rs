//! Choices the user makes about the overlays: which parcel to analyse, which layer and storm motion
//! the helicity overlay uses, and the names under which these choices appear in the interface.

use vstd::prelude::*;

verus! {

/// Types of parcels you can use when drawing parcel analysis overlays.
#[derive(Clone, Copy, Debug, PartialEq, Eq, Structural)]
pub enum ParcelType {
    Surface,
    MixedLayer,
    MostUnstable,
    Effective,
    Convective,
}

/// Types of helicity to use when drawing hodograph overlays.
#[derive(Clone, Copy, Debug, PartialEq, Eq, Structural)]
pub enum HelicityType {
    SurfaceTo3km,
    Effective,
}

/// Which storm motion to plot the helicity overlay for.
#[derive(Clone, Copy, Debug, PartialEq, Eq, Structural)]
pub enum StormMotionType {
    RightMover,
    LeftMover,
}

/// Are two strings equal, character for character?
pub fn str_equal(a: &str, b: &str) -> (r: bool)
    ensures
        r == (a@ == b@),
{
    let n = a.unicode_len();
    let m = b.unicode_len();
    if n != m {
        return false;
    }
    let mut i: usize = 0;
    while i < n
        invariant
            n == a@.len(),
            m == b@.len(),
            n == m,
            i <= n,
            forall|j: int| 0 <= j < i ==> a@[j] == b@[j],
        decreases n - i,
    {
        if a.get_char(i) != b.get_char(i) {
            return false;
        }
        i += 1;
    }
    assert(a@ =~= b@);
    true
}

/// Does `line` begin with `prefix`?
pub open spec fn starts_with(line: Seq<char>, prefix: Seq<char>) -> bool {
    prefix.len() <= line.len() && line.subrange(0, prefix.len() as int) == prefix
}

/// Does `line` begin with `prefix`?
pub fn str_starts_with(line: &str, prefix: &str) -> (r: bool)
    ensures
        r == starts_with(line@, prefix@),
{
    let n = line.unicode_len();
    let m = prefix.unicode_len();
    if m > n {
        return false;
    }
    let mut i: usize = 0;
    while i < m
        invariant
            n == line@.len(),
            m == prefix@.len(),
            m <= n,
            i <= m,
            forall|j: int| 0 <= j < i ==> line@[j] == prefix@[j],
        decreases m - i,
    {
        if line.get_char(i) != prefix.get_char(i) {
            assert(line@.subrange(0, m as int)[i as int] != prefix@[i as int]);
            return false;
        }
        i += 1;
    }
    assert(line@.subrange(0, m as int) =~= prefix@);
    true
}

/// Name of the helicity layer in the hodograph menu's action state.
pub open spec fn helicity_state_name(h: HelicityType) -> Seq<char> {
    match h {
        HelicityType::SurfaceTo3km => "sfc_to_3km"@,
        HelicityType::Effective => "effective"@,
    }
}

/// Name of the storm motion in the hodograph menu's action state.
pub open spec fn storm_motion_state_name(s: StormMotionType) -> Seq<char> {
    match s {
        StormMotionType::RightMover => "right"@,
        StormMotionType::LeftMover => "left"@,
    }
}

/// Start of the line of the indexes table that belongs to a parcel type.
pub open spec fn parcel_label(p: ParcelType) -> Seq<char> {
    match p {
        ParcelType::Surface => "Surface"@,
        ParcelType::MixedLayer => "Mixed"@,
        ParcelType::MostUnstable => "Most"@,
        ParcelType::Effective => "Effective"@,
        ParcelType::Convective => "Convective"@,
    }
}

impl HelicityType {
    /// The menu action state that stands for this layer.
    pub fn action_state(self) -> (s: &'static str)
        ensures
            s@ == helicity_state_name(self),
    {
        match self {
            HelicityType::SurfaceTo3km => "sfc_to_3km",
            HelicityType::Effective => "effective",
        }
    }

    /// The layer a menu action state stands for. Only the two states the menu defines occur.
    pub fn from_action_state(state: &str) -> (h: HelicityType)
        requires
            state@ == "sfc_to_3km"@ || state@ == "effective"@,
        ensures
            helicity_state_name(h) == state@,
    {
        if str_equal(state, "sfc_to_3km") {
            HelicityType::SurfaceTo3km
        } else {
            HelicityType::Effective
        }
    }
}

impl StormMotionType {
    /// The menu action state that stands for this storm motion.
    pub fn action_state(self) -> (s: &'static str)
        ensures
            s@ == storm_motion_state_name(self),
    {
        match self {
            StormMotionType::RightMover => "right",
            StormMotionType::LeftMover => "left",
        }
    }

    /// The storm motion a menu action state stands for. Only the two states the menu defines
    /// occur.
    pub fn from_action_state(state: &str) -> (s: StormMotionType)
        requires
            state@ == "right"@ || state@ == "left"@,
        ensures
            storm_motion_state_name(s) == state@,
    {
        if str_equal(state, "right") {
            StormMotionType::RightMover
        } else {
            StormMotionType::LeftMover
        }
    }
}

impl ParcelType {
    /// Start of the line of the indexes table that shows this parcel.
    pub fn index_label(self) -> (s: &'static str)
        ensures
            s@ == parcel_label(self),
    {
        match self {
            ParcelType::Surface => "Surface",
            ParcelType::MixedLayer => "Mixed",
            ParcelType::MostUnstable => "Most",
            ParcelType::Effective => "Effective",
            ParcelType::Convective => "Convective",
        }
    }
}

/// The lines of the indexes table to highlight for the chosen parcel: every line that begins with
/// the parcel's label, or none when parcel profiles are hidden.
pub fn highlight_parcel(lines: &Vec<String>, parcel_type: ParcelType, show_parcel_profile: bool) -> (r: Vec<usize>)
    ensures
        !show_parcel_profile ==> r@.len() == 0,
        show_parcel_profile ==> (forall|k: int| 0 <= k < r@.len() ==> #[trigger] r@[k] < lines@.len()
            && starts_with(lines@[r@[k] as int]@, parcel_label(parcel_type))),
        show_parcel_profile ==> (forall|i: int|
            0 <= i < lines@.len() && starts_with(#[trigger] lines@[i]@, parcel_label(parcel_type)) ==> r@.contains(i as usize)),
        forall|k1: int, k2: int| 0 <= k1 < k2 < r@.len() ==> r@[k1] < r@[k2],
{
    let mut r: Vec<usize> = Vec::new();
    if !show_parcel_profile {
        return r;
    }
    let label = parcel_type.index_label();
    let mut i: usize = 0;
    while i < lines.len()
        invariant
            i <= lines@.len(),
            label@ == parcel_label(parcel_type),
            forall|k: int| 0 <= k < r@.len() ==> #[trigger] r@[k] < i && starts_with(
                lines@[r@[k] as int]@,
                parcel_label(parcel_type),
            ),
            forall|j: int| 0 <= j < i && starts_with(#[trigger] lines@[j]@, parcel_label(parcel_type)) ==> r@.contains(j as usize),
            forall|k1: int, k2: int| 0 <= k1 < k2 < r@.len() ==> r@[k1] < r@[k2],
        decreases lines@.len() - i,
    {
        let ghost old_r = r@;
        if str_starts_with(lines[i].as_str(), label) {
            r.push(i);
            assert(r@[r@.len() - 1] == i);
        }
        assert forall|j: int| 0 <= j < i + 1 && starts_with(#[trigger] lines@[j]@, parcel_label(parcel_type)) implies r@.contains(j as usize) by {
            if j < i {
                assert(old_r.contains(j as usize));
                let k = choose|k: int| 0 <= k < old_r.len() && old_r[k] == j as usize;
                assert(r@[k] == j as usize);
            } else {
                assert(r@[r@.len() - 1] == i);
            }
        }
        i += 1;
    }
    r
}

/// Decoding a menu action state gives back the layer or storm motion that was encoded.
pub proof fn lemma_action_state_round_trip(h: HelicityType, s: StormMotionType)
    ensures
        forall|h2: HelicityType| helicity_state_name(h2) == helicity_state_name(h) ==> h2 == h,
        forall|s2: StormMotionType| storm_motion_state_name(s2) == storm_motion_state_name(s) ==> s2 == s,
{
    reveal_strlit("sfc_to_3km");
    reveal_strlit("effective");
    reveal_strlit("right");
    reveal_strlit("left");
    assert("sfc_to_3km"@.len() != "effective"@.len());
    assert("right"@.len() != "left"@.len());
}

/// The parcel labels are told apart: no label begins with another, so highlighting never marks
/// the line of another parcel type's label alone.
pub proof fn lemma_parcel_labels_distinct(p: ParcelType, q: ParcelType)
    requires
        p != q,
    ensures
        !starts_with(parcel_label(p), parcel_label(q)),
{
    reveal_strlit("Surface");
    reveal_strlit("Mixed");
    reveal_strlit("Most");
    reveal_strlit("Effective");
    reveal_strlit("Convective");
    let a = parcel_label(p);
    let b = parcel_label(q);
    if starts_with(a, b) {
        assert(a.subrange(0, b.len() as int)[0] == b[0]);
        if b.len() > 1 {
            assert(a.subrange(0, b.len() as int)[1] == b[1]);
        }
    }
}

} // verus!
