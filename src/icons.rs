//! Resolution of an alert's category and subcategory to the icon it is drawn
//! with. The lookup falls back to a category's first asset for an unknown
//! subcategory, and to the first category for an unknown category, so every
//! pair resolves to an icon.

use vstd::prelude::*;

verus! {

/// The icons an alert can be drawn with.
#[derive(Clone, Copy, Debug, PartialEq, Eq, Hash, Structural)]
pub enum IconAsset {
    Hazard,
    Pothole,
    Construction,
    Ice,
    TrafficLight,
    RoadObject,
    VehicleStopped,
    Fog,
    TrafficLow,
    TrafficHigh,
    Closure,
    Accident,
    Police,
}

/// Number of distinct icons.
pub const ICON_COUNT: usize = 13;

impl IconAsset {
    /// Position of the icon in a table of all icons.
    pub open spec fn spec_index(&self) -> nat {
        match self {
            IconAsset::Hazard => 0,
            IconAsset::Pothole => 1,
            IconAsset::Construction => 2,
            IconAsset::Ice => 3,
            IconAsset::TrafficLight => 4,
            IconAsset::RoadObject => 5,
            IconAsset::VehicleStopped => 6,
            IconAsset::Fog => 7,
            IconAsset::TrafficLow => 8,
            IconAsset::TrafficHigh => 9,
            IconAsset::Closure => 10,
            IconAsset::Accident => 11,
            IconAsset::Police => 12,
        }
    }

    /// Position of the icon in a table of all icons, below `ICON_COUNT`.
    pub fn index(&self) -> (r: usize)
        ensures
            r == self.spec_index(),
            r < ICON_COUNT,
    {
        match self {
            IconAsset::Hazard => 0,
            IconAsset::Pothole => 1,
            IconAsset::Construction => 2,
            IconAsset::Ice => 3,
            IconAsset::TrafficLight => 4,
            IconAsset::RoadObject => 5,
            IconAsset::VehicleStopped => 6,
            IconAsset::Fog => 7,
            IconAsset::TrafficLow => 8,
            IconAsset::TrafficHigh => 9,
            IconAsset::Closure => 10,
            IconAsset::Accident => 11,
            IconAsset::Police => 12,
        }
    }

    /// The file stem under which the icon's image is kept.
    pub open spec fn spec_name(&self) -> Seq<char> {
        match self {
            IconAsset::Hazard => "hazard"@,
            IconAsset::Pothole => "pothole"@,
            IconAsset::Construction => "construction"@,
            IconAsset::Ice => "ice"@,
            IconAsset::TrafficLight => "light"@,
            IconAsset::RoadObject => "object"@,
            IconAsset::VehicleStopped => "vehicle-stopped"@,
            IconAsset::Fog => "fog"@,
            IconAsset::TrafficLow => "traffic-low"@,
            IconAsset::TrafficHigh => "traffic-high"@,
            IconAsset::Closure => "closure"@,
            IconAsset::Accident => "accident"@,
            IconAsset::Police => "police"@,
        }
    }

    /// The file stem under which the icon's image is kept.
    pub fn name(&self) -> (r: &'static str)
        ensures
            r@ == self.spec_name(),
    {
        match self {
            IconAsset::Hazard => "hazard",
            IconAsset::Pothole => "pothole",
            IconAsset::Construction => "construction",
            IconAsset::Ice => "ice",
            IconAsset::TrafficLight => "light",
            IconAsset::RoadObject => "object",
            IconAsset::VehicleStopped => "vehicle-stopped",
            IconAsset::Fog => "fog",
            IconAsset::TrafficLow => "traffic-low",
            IconAsset::TrafficHigh => "traffic-high",
            IconAsset::Closure => "closure",
            IconAsset::Accident => "accident",
            IconAsset::Police => "police",
        }
    }
}

/// The known categories; the first one is the default category.
pub open spec fn categories() -> Seq<Seq<char>> {
    seq!["HAZARD"@, "JAM"@, "ROAD_CLOSED"@, "ACCIDENT"@, "POLICE"@]
}

/// The subcategories of category `c`; the first entry names the category's
/// default asset.
pub open spec fn subcategories(c: int) -> Seq<Seq<char>> {
    if c == 0 {
        seq![
            "DEFAULT"@,
            "HAZARD_ON_ROAD_POT_HOLE"@,
            "HAZARD_ON_ROAD_CONSTRUCTION"@,
            "HAZARD_ON_ROAD_ICE"@,
            "HAZARD_ON_ROAD_TRAFFIC_LIGHT_FAULT"@,
            "HAZARD_ON_ROAD_OBJECT"@,
            "HAZARD_ON_SHOULDER_CAR_STOPPED"@,
            "HAZARD_WEATHER_FOG"@,
        ]
    } else if c == 1 {
        seq!["DEFAULT"@, "JAM_HEAVY_TRAFFIC"@, "JAM_STAND_STILL_TRAFFIC"@]
    } else {
        seq!["DEFAULT"@]
    }
}

/// The assets of category `c`, entry for entry with `subcategories(c)`.
pub open spec fn assets(c: int) -> Seq<IconAsset> {
    if c == 0 {
        seq![
            IconAsset::Hazard,
            IconAsset::Pothole,
            IconAsset::Construction,
            IconAsset::Ice,
            IconAsset::TrafficLight,
            IconAsset::RoadObject,
            IconAsset::VehicleStopped,
            IconAsset::Fog,
        ]
    } else if c == 1 {
        seq![IconAsset::TrafficLow, IconAsset::TrafficLow, IconAsset::TrafficHigh]
    } else if c == 2 {
        seq![IconAsset::Closure]
    } else if c == 3 {
        seq![IconAsset::Accident]
    } else {
        seq![IconAsset::Police]
    }
}

/// `i` is the first position of `x` in `names`.
pub open spec fn first_at(names: Seq<Seq<char>>, x: Seq<char>, i: int) -> bool {
    0 <= i < names.len() && names[i] == x && forall|j: int| 0 <= j < i ==> names[j] != x
}

/// The first position of `x` in `names`, or 0 where `x` is absent.
pub open spec fn lookup(names: Seq<Seq<char>>, x: Seq<char>) -> int {
    if names.contains(x) {
        choose|i: int| first_at(names, x, i)
    } else {
        0
    }
}

/// The icon for category `main` and subcategory `sub`.
pub open spec fn resolve(main: Seq<char>, sub: Seq<char>) -> IconAsset {
    let c = lookup(categories(), main);
    assets(c)[lookup(subcategories(c), sub)]
}

/// The two strings hold the same characters.
fn text_eq(a: &str, b: &str) -> (r: bool)
    ensures
        r == (a@ == b@),
{
    let n = a.unicode_len();
    if n != b.unicode_len() {
        return false;
    }
    let mut i: usize = 0;
    while i < n
        invariant
            n == a@.len() == b@.len(),
            i <= n,
            forall|j: int| 0 <= j < i ==> a@[j] == b@[j],
        decreases n - i,
    {
        if a.get_char(i) != b.get_char(i) {
            return false;
        }
        i += 1;
    }
    assert(a@ =~= b@);
    true
}

/// The views of a sequence of string slices.
pub open spec fn texts(s: Seq<&str>) -> Seq<Seq<char>> {
    s.map_values(|t: &str| t@)
}

/// Position of the first of `names` equal to `x`, or 0 where none is.
fn position_or_default(names: &Vec<&str>, x: &str) -> (r: usize)
    ensures
        r == lookup(texts(names@), x@),
{
    let ghost v = texts(names@);
    let mut i: usize = 0;
    while i < names.len()
        invariant
            i <= names@.len(),
            v == texts(names@),
            forall|j: int| 0 <= j < i ==> v[j] != x@,
        decreases names@.len() - i,
    {
        if text_eq(names[i], x) {
            assert(first_at(v, x@, i as int));
            assert(v.contains(x@));
            let ghost k = choose|k: int| first_at(v, x@, k);
            assert(k == i) by {
                if k < i {
                } else if k > i {
                    assert(v[i as int] == x@);
                }
            }
            return i;
        }
        i += 1;
    }
    assert(!v.contains(x@));
    0
}

fn category_names() -> (r: Vec<&'static str>)
    ensures
        texts(r@) == categories(),
{
    let r = vec!["HAZARD", "JAM", "ROAD_CLOSED", "ACCIDENT", "POLICE"];
    assert(texts(r@) =~= categories());
    r
}

fn subcategory_names(c: usize) -> (r: Vec<&'static str>)
    ensures
        texts(r@) == subcategories(c as int),
{
    let r = if c == 0 {
        vec![
            "DEFAULT",
            "HAZARD_ON_ROAD_POT_HOLE",
            "HAZARD_ON_ROAD_CONSTRUCTION",
            "HAZARD_ON_ROAD_ICE",
            "HAZARD_ON_ROAD_TRAFFIC_LIGHT_FAULT",
            "HAZARD_ON_ROAD_OBJECT",
            "HAZARD_ON_SHOULDER_CAR_STOPPED",
            "HAZARD_WEATHER_FOG",
        ]
    } else if c == 1 {
        vec!["DEFAULT", "JAM_HEAVY_TRAFFIC", "JAM_STAND_STILL_TRAFFIC"]
    } else {
        vec!["DEFAULT"]
    };
    assert(texts(r@) =~= subcategories(c as int));
    r
}

fn category_assets(c: usize) -> (r: Vec<IconAsset>)
    ensures
        r@ == assets(c as int),
{
    let r = if c == 0 {
        vec![
            IconAsset::Hazard,
            IconAsset::Pothole,
            IconAsset::Construction,
            IconAsset::Ice,
            IconAsset::TrafficLight,
            IconAsset::RoadObject,
            IconAsset::VehicleStopped,
            IconAsset::Fog,
        ]
    } else if c == 1 {
        vec![IconAsset::TrafficLow, IconAsset::TrafficLow, IconAsset::TrafficHigh]
    } else if c == 2 {
        vec![IconAsset::Closure]
    } else if c == 3 {
        vec![IconAsset::Accident]
    } else {
        vec![IconAsset::Police]
    };
    assert(r@ =~= assets(c as int));
    r
}

/// A position found by `lookup` in a non-empty table lies within it.
proof fn lemma_lookup_in_range(names: Seq<Seq<char>>, x: Seq<char>)
    requires
        names.len() > 0,
    ensures
        0 <= lookup(names, x) < names.len(),
{
    if names.contains(x) {
        let w = choose|i: int| 0 <= i < names.len() && names[i] == x;
        lemma_first_exists(names, x, w);
    }
}

proof fn lemma_first_exists(names: Seq<Seq<char>>, x: Seq<char>, w: int)
    requires
        0 <= w < names.len(),
        names[w] == x,
    ensures
        exists|i: int| first_at(names, x, i),
    decreases w,
{
    if exists|j: int| 0 <= j < w && names[j] == x {
        let j = choose|j: int| 0 <= j < w && names[j] == x;
        lemma_first_exists(names, x, j);
    } else {
        assert(first_at(names, x, w));
    }
}

/// The icon for category `main_type` and subcategory `sub_type`: the asset of
/// the subcategory within the category, the category's first asset for an
/// unknown subcategory, and the first category's table for an unknown category.
pub fn find_alert_asset(main_type: &str, sub_type: &str) -> (r: IconAsset)
    ensures
        r == resolve(main_type@, sub_type@),
{
    let names = category_names();
    let c = position_or_default(&names, main_type);
    proof {
        lemma_lookup_in_range(categories(), main_type@);
    }
    let subs = subcategory_names(c);
    let k = position_or_default(&subs, sub_type);
    proof {
        lemma_lookup_in_range(subcategories(c as int), sub_type@);
    }
    let table = category_assets(c);
    table[k]
}

/// Every pair of category and subcategory resolves: for a known category and
/// a subcategory it does not list, the result is that category's first
/// (default) asset; for an unknown category and a subcategory that the first
/// category does not list, it is the first category's default asset.
pub proof fn lemma_icon_fallback(main: Seq<char>, sub: Seq<char>)
    ensures
        categories().contains(main) && !subcategories(lookup(categories(), main)).contains(sub)
            ==> resolve(main, sub) == assets(lookup(categories(), main))[0],
        !categories().contains(main) && !subcategories(0).contains(sub) ==> resolve(main, sub)
            == IconAsset::Hazard,
{
}

} // verus!
