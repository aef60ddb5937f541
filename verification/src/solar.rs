//! The solar-system view's state that is not drawing: which body the camera
//! pivots around and how that choice is persisted, the picker's rows of
//! targets, the layer switches, and the find box's match against satellites.

use vstd::prelude::*;
use vstd::string::StringSliceAdditionalSpecFns;
use crate::text::{ascii_lower, ci_match_at, contains_ci, occurs, contains_ignore_ascii_case, dec, push_dec, string_of, to_uppercase, trim, trim_chars, uppercase};

verus! {

/// The planets the view draws besides the Earth, in the order the persisted
/// encoding numbers them.
#[derive(Debug, Clone, Copy, PartialEq, Eq, Structural)]
pub enum Planet {
    Mercury,
    Venus,
    Mars,
    Jupiter,
    Saturn,
    Uranus,
    Neptune,
}

/// How many planets there are.
pub const PLANETS: usize = 7;

/// A planet's place in [`Planet`]'s order.
pub open spec fn planet_index(p: Planet) -> int {
    match p {
        Planet::Mercury => 0,
        Planet::Venus => 1,
        Planet::Mars => 2,
        Planet::Jupiter => 3,
        Planet::Saturn => 4,
        Planet::Uranus => 5,
        Planet::Neptune => 6,
    }
}

/// The planet at place `i`.
pub open spec fn planet_at(i: int) -> Planet {
    if i == 0 {
        Planet::Mercury
    } else if i == 1 {
        Planet::Venus
    } else if i == 2 {
        Planet::Mars
    } else if i == 3 {
        Planet::Jupiter
    } else if i == 4 {
        Planet::Saturn
    } else if i == 5 {
        Planet::Uranus
    } else {
        Planet::Neptune
    }
}

impl Planet {
    /// The planet's place in the order.
    pub fn index(self) -> (i: usize)
        ensures
            i == planet_index(self),
    {
        match self {
            Planet::Mercury => 0,
            Planet::Venus => 1,
            Planet::Mars => 2,
            Planet::Jupiter => 3,
            Planet::Saturn => 4,
            Planet::Uranus => 5,
            Planet::Neptune => 6,
        }
    }

    /// The planet at place `i`, for `i` below [`PLANETS`].
    pub fn at(i: usize) -> (p: Planet)
        requires
            i < PLANETS,
        ensures
            p == planet_at(i as int),
    {
        if i == 0 {
            Planet::Mercury
        } else if i == 1 {
            Planet::Venus
        } else if i == 2 {
            Planet::Mars
        } else if i == 3 {
            Planet::Jupiter
        } else if i == 4 {
            Planet::Saturn
        } else if i == 5 {
            Planet::Uranus
        } else {
            Planet::Neptune
        }
    }
}

/// A moon of another planet, as the moon table lists it.
#[derive(Debug, Clone)]
pub struct MoonEntry {
    pub name: String,
    pub parent: Planet,
}

/// A dwarf planet, asteroid or comet, as the small-body table lists it.
#[derive(Debug, Clone)]
pub struct SmallEntry {
    pub name: String,
    /// Dwarf planets get a row of their own in the picker; the rest are left
    /// to the find box.
    pub dwarf: bool,
}

/// The two body tables the persisted encoding indexes: the moons of other
/// planets and the small bodies, each in table order.
///
/// A catalogue always fits the encoding ([`catalogue_ok`]): it is built only
/// through [`Catalogue::new`], which refuses tables that do not.
#[derive(Debug)]
pub struct Catalogue {
    moons: Vec<MoonEntry>,
    bodies: Vec<SmallEntry>,
}

impl Catalogue {
    /// The moon table, in order.
    pub closed spec fn moon_list(self) -> Seq<MoonEntry> {
        self.moons@
    }

    /// The small-body table, in order.
    pub closed spec fn body_list(self) -> Seq<SmallEntry> {
        self.bodies@
    }

    /// Every catalogue fits the encoding.
    #[verifier::type_invariant]
    spec fn fits(self) -> bool {
        catalogue_ok(self)
    }

    /// A catalogue of these tables, or `None` when they would not fit the
    /// encoding: a moon whose id reaches [`SMALL_BASE`], or a small body
    /// whose id leaves 16 bits.
    pub fn new(moons: Vec<MoonEntry>, bodies: Vec<SmallEntry>) -> (r: Option<Catalogue>)
        ensures
            r is Some <==> (NEAR + PLANETS + moons@.len() <= SMALL_BASE && SMALL_BASE
                + bodies@.len() <= 65536),
            r matches Some(c) ==> c.moon_list() == moons@ && c.body_list() == bodies@,
    {
        if moons.len() <= SMALL_BASE - NEAR - PLANETS && bodies.len() <= 65536 - SMALL_BASE {
            Some(Catalogue { moons, bodies })
        } else {
            None
        }
    }

    /// The moon table, in order; the catalogue fits the encoding.
    pub fn moons(&self) -> (r: &Vec<MoonEntry>)
        ensures
            r@ == self.moon_list(),
            catalogue_ok(*self),
    {
        proof {
            use_type_invariant(self);
        }
        &self.moons
    }

    /// The small-body table, in order; the catalogue fits the encoding.
    pub fn bodies(&self) -> (r: &Vec<SmallEntry>)
        ensures
            r@ == self.body_list(),
            catalogue_ok(*self),
    {
        proof {
            use_type_invariant(self);
        }
        &self.bodies
    }
}

/// Where the small bodies start in the persisted encoding: a round number
/// well past the moons, so adding a moon cannot shift an asteroid's id.
pub const SMALL_BASE: usize = 256;

/// The four targets that are not a table lookup.
pub const NEAR: usize = 4;

/// The tables fit the encoding: every moon's id stays below
/// [`SMALL_BASE`], every small body's within 16 bits.
pub open spec fn catalogue_ok(c: Catalogue) -> bool {
    NEAR + PLANETS + c.moon_list().len() <= SMALL_BASE && SMALL_BASE + c.body_list().len() <= 65536
}

/// Which body the orbit camera pivots around.
#[derive(Debug, Clone, Copy, PartialEq, Eq, Structural)]
pub enum Focus {
    Sun,
    Earth,
    Moon,
    /// Midpoint of the Earth–Moon line, for framing the pair.
    EarthMoon,
    Planet(Planet),
    /// A moon of another planet, by index into the moon table.
    Satellite(usize),
    /// A dwarf planet, asteroid or comet, by index into the small-body table.
    Small(usize),
}

/// Whether `f` names a body the catalogue has.
pub open spec fn focus_ok(f: Focus, c: Catalogue) -> bool {
    match f {
        Focus::Satellite(i) => i < c.moon_list().len(),
        Focus::Small(i) => i < c.body_list().len(),
        _ => true,
    }
}

/// The persisted id of a target: the four near targets keep 0–3, the planets
/// follow, then the moons, and the small bodies start at [`SMALL_BASE`]; the
/// sum is cut to 16 bits.
pub open spec fn id_of(f: Focus) -> u16 {
    (match f {
        Focus::Sun => 0,
        Focus::Earth => 1,
        Focus::Moon => 2,
        Focus::EarthMoon => 3,
        Focus::Planet(p) => NEAR + planet_index(p),
        Focus::Satellite(i) => NEAR + PLANETS + i,
        Focus::Small(i) => SMALL_BASE + i,
    }) as u16
}

/// The target a persisted id means; an id past the end of a table — from a
/// newer build, or a corrupt file — means the Sun.
pub open spec fn focus_of(v: u16, c: Catalogue) -> Focus {
    if v == 0 {
        Focus::Sun
    } else if v == 1 {
        Focus::Earth
    } else if v == 2 {
        Focus::Moon
    } else if v == 3 {
        Focus::EarthMoon
    } else if v >= SMALL_BASE {
        if v - SMALL_BASE < c.body_list().len() {
            Focus::Small((v - SMALL_BASE) as usize)
        } else {
            Focus::Sun
        }
    } else if v - NEAR < PLANETS {
        Focus::Planet(planet_at(v - NEAR))
    } else if v - NEAR - PLANETS < c.moon_list().len() {
        Focus::Satellite((v - NEAR - PLANETS) as usize)
    } else {
        Focus::Sun
    }
}

impl Focus {
    /// The four targets that are not a table lookup, in their persisted order.
    pub const NEAR: [Focus; 4] = [Focus::Sun, Focus::Earth, Focus::Moon, Focus::EarthMoon];

    /// The target a persisted id means; see [`focus_of`].
    pub fn from_id(v: u16, cat: &Catalogue) -> (f: Focus)
        ensures
            f == focus_of(v, *cat),
            focus_ok(f, *cat),
            catalogue_ok(*cat),
    {
        proof {
            use_type_invariant(cat);
        }
        let v: usize = v as usize;
        if v == 0 {
            return Focus::Sun;
        }
        if v == 1 {
            return Focus::Earth;
        }
        if v == 2 {
            return Focus::Moon;
        }
        if v == 3 {
            return Focus::EarthMoon;
        }
        if v >= SMALL_BASE {
            let i: usize = v - SMALL_BASE;
            return if i < cat.bodies.len() {
                Focus::Small(i)
            } else {
                Focus::Sun
            };
        }
        let k: usize = v - NEAR;
        if k < PLANETS {
            Focus::Planet(Planet::at(k))
        } else {
            let m: usize = k - PLANETS;
            if m < cat.moons.len() {
                Focus::Satellite(m)
            } else {
                Focus::Sun
            }
        }
    }

    /// The persisted id of this target; see [`id_of`].
    pub fn to_id(self) -> (v: u16)
        requires
            self matches Focus::Satellite(i) ==> i + NEAR + PLANETS <= usize::MAX,
            self matches Focus::Small(i) ==> i + SMALL_BASE <= usize::MAX,
        ensures
            v == id_of(self),
    {
        let raw: usize = match self {
            Focus::Sun => 0,
            Focus::Earth => 1,
            Focus::Moon => 2,
            Focus::EarthMoon => 3,
            Focus::Planet(p) => NEAR + p.index(),
            Focus::Satellite(i) => NEAR + PLANETS + i,
            Focus::Small(i) => SMALL_BASE + i,
        };
        raw as u16
    }

    /// True for a body that orbits another body this view also draws — the
    /// picker indents those under their planet.
    pub fn is_satellite(self) -> (b: bool)
        ensures
            b == (self matches Focus::Moon || self matches Focus::Satellite(_)),
    {
        match self {
            Focus::Moon | Focus::Satellite(_) => true,
            _ => false,
        }
    }
}

/// Every target the catalogue has survives the trip through its persisted id.
/// The premise holds of every [`Catalogue`] there is — see
/// [`Catalogue::moons`] and [`Focus::from_id`], which state it.
pub proof fn lemma_id_round_trip(f: Focus, c: Catalogue)
    requires
        catalogue_ok(c),
        focus_ok(f, c),
    ensures
        focus_of(id_of(f), c) == f,
{
    match f {
        Focus::Planet(p) => {
            assert(planet_at(planet_index(p)) == p);
        },
        _ => {},
    }
}

/// Two different targets the catalogue has never share a persisted id.
pub proof fn lemma_ids_distinct(f: Focus, g: Focus, c: Catalogue)
    requires
        catalogue_ok(c),
        focus_ok(f, c),
        focus_ok(g, c),
        f != g,
    ensures
        id_of(f) != id_of(g),
{
    lemma_id_round_trip(f, c);
    lemma_id_round_trip(g, c);
}

/// The near targets keep the ids 0–3 they were first written with, and the
/// planets the ids after them.
pub proof fn lemma_historical_ids(p: Planet)
    ensures
        id_of(Focus::Sun) == 0,
        id_of(Focus::Earth) == 1,
        id_of(Focus::Moon) == 2,
        id_of(Focus::EarthMoon) == 3,
        id_of(Focus::Planet(p)) == 4 + planet_index(p),
{
}

/// Every id names some target the catalogue has, an id past every table
/// means the Sun, and any id that does not mean the Sun is the id of what it
/// means.
pub proof fn lemma_every_id_decodes(v: u16, c: Catalogue)
    ensures
        focus_ok(focus_of(v, c), c),
        focus_of(v, c) == Focus::Sun || id_of(focus_of(v, c)) == v,
        (v >= SMALL_BASE + c.body_list().len() || (NEAR + PLANETS + c.moon_list().len() <= v < SMALL_BASE)) ==> focus_of(
            v,
            c,
        ) == Focus::Sun,
{
}

/// A satellite-lock change requested inside the 3D window, handed back to
/// the host, which owns the command path to the engine.
#[derive(Clone, Copy, Debug, PartialEq, Eq, Structural)]
pub enum LockChange {
    Lock(u64),
    Unlock,
}

} // verus!

verus! {

/// The persisted settings of the solar-system view that this state reads:
/// the camera target's id, whether the automatic tour drives the camera, and
/// the layer switches, one bit a layer.
#[derive(Debug, Clone, Copy, PartialEq, Eq, Structural)]
pub struct Solar3dView {
    pub focus: u16,
    pub auto: bool,
    pub layers: u32,
}

/// The layer masks the settings have meant "every layer" by: the one of this
/// build, and those of earlier builds that had fewer layers.
#[derive(Debug, Clone, PartialEq)]
pub struct LayerMasks {
    pub all: u32,
    pub previous_all: Vec<u32>,
}

/// The window state this crate keeps for the solar-system view.
pub struct SolarUi {
    /// Persisted camera and layer settings.
    pub view: Solar3dView,
    /// The body tables the target encoding indexes.
    pub catalogue: Catalogue,
    /// Set when the target changes, so the next frame can pull the camera in
    /// to frame whatever was picked.
    pub retarget: bool,
    /// What has been typed into the find box.
    pub search: String,
    /// Set when the window's close button is hit; drained by the host.
    pub close_requested: bool,
    /// Set by the overlay's refresh button; drained by the host, which owns
    /// the feed.
    pub refresh_requested: bool,
    /// The engine's satellite lock, pushed by the host each frame.
    pub sat_lock: Option<u64>,
    /// A lock asked for by the pass window's LOCK button; drained by the
    /// host, which owns the command path to the engine.
    pub lock_requested: Option<u64>,
    /// The matching UNLOCK, same contract.
    pub unlock_requested: bool,
    /// The operator's locator as configured.
    pub qth_grid: String,
    /// Satellite whose pass table is open, by catalogue number.
    pub selected_sat: Option<u64>,
    /// Whether the activity replay head is sweeping forward on its own.
    pub lapse_playing: bool,
}

/// Nothing but the view settings and the reframe request differ between
/// `a` and `b`.
pub open spec fn same_window(a: SolarUi, b: SolarUi) -> bool {
    &&& a.catalogue == b.catalogue
    &&& a.search == b.search
    &&& a.close_requested == b.close_requested
    &&& a.refresh_requested == b.refresh_requested
    &&& a.sat_lock == b.sat_lock
    &&& a.lock_requested == b.lock_requested
    &&& a.unlock_requested == b.unlock_requested
    &&& a.qth_grid == b.qth_grid
    &&& a.selected_sat == b.selected_sat
    &&& a.lapse_playing == b.lapse_playing
}

/// The layers a persisted mask stands for: a mask that was "everything" when
/// it was saved is "everything" now, so a layer added since is not left off.
pub open spec fn upgraded_layers(layers: u32, masks: LayerMasks) -> u32 {
    if masks.previous_all@.contains(layers) {
        masks.all
    } else {
        layers
    }
}

/// Whether a satellite matches the find box: the box, trimmed, is not empty
/// and occurs in the name or in the decimal catalogue number, ignoring ASCII
/// case.
pub open spec fn sat_match(search: Seq<char>, name: Seq<char>, norad_id: u64) -> bool {
    let q = vstd::utf8::encode_utf8(trim(search));
    &&& trim(search).len() > 0
    &&& (contains_ci(vstd::utf8::encode_utf8(name), q) || contains_ci(
        vstd::utf8::encode_utf8(dec(norad_id as nat)),
        q,
    ))
}

proof fn lemma_nonempty_encodes_nonempty(s: Seq<char>)
    requires
        s.len() > 0,
    ensures
        vstd::utf8::encode_utf8(s).len() > 0,
{
    assert(vstd::utf8::encode_utf8(s) == vstd::utf8::encode_scalar(s[0] as u32)
        + vstd::utf8::encode_utf8(s.drop_first()));
}

/// The find box hits a satellite whenever what is typed in it, trimmed,
/// is not empty and occurs anywhere in the satellite's name or anywhere in
/// the decimal spelling of its catalogue number — a prefix of the number
/// included — and never when the trimmed box is empty.
pub proof fn lemma_find_box_finds_substrings(search: Seq<char>, name: Seq<char>, norad_id: u64)
    ensures
        sat_match(search, name, norad_id) ==> trim(search).len() > 0,
        trim(search).len() > 0 && occurs(
            vstd::utf8::encode_utf8(dec(norad_id as nat)),
            vstd::utf8::encode_utf8(trim(search)),
        ) ==> sat_match(search, name, norad_id),
        trim(search).len() > 0 && occurs(
            vstd::utf8::encode_utf8(name),
            vstd::utf8::encode_utf8(trim(search)),
        ) ==> sat_match(search, name, norad_id),
{
    let q = vstd::utf8::encode_utf8(trim(search));
    let d = vstd::utf8::encode_utf8(dec(norad_id as nat));
    let n = vstd::utf8::encode_utf8(name);
    if trim(search).len() > 0 {
        lemma_nonempty_encodes_nonempty(trim(search));
        if occurs(d, q) {
            let i = choose|i: int| 0 <= i && i + q.len() <= d.len() && #[trigger] d.subrange(i, i + q.len()) == q;
            assert forall|j: int| 0 <= j < q.len() implies ascii_lower(#[trigger] d[i + j]) == ascii_lower(q[j]) by {
                assert(d.subrange(i, i + q.len())[j] == d[i + j]);
            }
            assert(ci_match_at(d, q, i));
        }
        if occurs(n, q) {
            let i = choose|i: int| 0 <= i && i + q.len() <= n.len() && #[trigger] n.subrange(i, i + q.len()) == q;
            assert forall|j: int| 0 <= j < q.len() implies ascii_lower(#[trigger] n[i + j]) == ascii_lower(q[j]) by {
                assert(n.subrange(i, i + q.len())[j] == n[i + j]);
            }
            assert(ci_match_at(n, q, i));
        }
    }
}

impl SolarUi {
    /// The window state for a persisted view, its layer mask brought up to
    /// date.
    pub fn new(view: Solar3dView, catalogue: Catalogue, masks: &LayerMasks) -> (r: SolarUi)
        ensures
            r.view == (Solar3dView { layers: upgraded_layers(view.layers, *masks), ..view }),
            r.catalogue == catalogue,
            !r.retarget,
            r.search@ == Seq::<char>::empty(),
            !r.close_requested,
            !r.refresh_requested,
            r.sat_lock is None,
            r.lock_requested is None,
            !r.unlock_requested,
            r.qth_grid@ == Seq::<char>::empty(),
            r.selected_sat is None,
            !r.lapse_playing,
    {
        let mut view = view;
        let mut i: usize = 0;
        let mut found = false;
        while i < masks.previous_all.len()
            invariant
                i <= masks.previous_all@.len(),
                found <==> exists|j: int| 0 <= j < i && masks.previous_all@[j] == view.layers,
            decreases masks.previous_all@.len() - i,
        {
            if masks.previous_all[i] == view.layers {
                found = true;
            }
            i = i + 1;
        }
        if found {
            view.layers = masks.all;
        }
        SolarUi {
            view,
            catalogue,
            retarget: false,
            search: String::new(),
            close_requested: false,
            refresh_requested: false,
            sat_lock: None,
            lock_requested: None,
            unlock_requested: false,
            qth_grid: String::new(),
            selected_sat: None,
            lapse_playing: false,
        }
    }

    /// Drain what the window asked of the host this frame: whether to close
    /// it, whether to refresh the feed, and the lock change to send — an
    /// UNLOCK wins over a LOCK asked for in the same frame. Every request is
    /// taken, so none is acted on twice.
    pub fn take_requests(&mut self) -> (r: (bool, bool, Option<LockChange>))
        ensures
            r.0 == old(self).close_requested,
            r.1 == old(self).refresh_requested,
            r.2 == if old(self).unlock_requested {
                Some(LockChange::Unlock)
            } else {
                match old(self).lock_requested {
                    Some(id) => Some(LockChange::Lock(id)),
                    None => None,
                }
            },
            !final(self).close_requested,
            !final(self).refresh_requested,
            final(self).lock_requested is None,
            !final(self).unlock_requested,
            final(self).view == old(self).view,
            final(self).retarget == old(self).retarget,
            final(self).catalogue == old(self).catalogue,
            final(self).search == old(self).search,
            final(self).sat_lock == old(self).sat_lock,
            final(self).qth_grid == old(self).qth_grid,
            final(self).selected_sat == old(self).selected_sat,
            final(self).lapse_playing == old(self).lapse_playing,
    {
        let close = self.close_requested;
        let refresh = self.refresh_requested;
        let lock = self.lock_requested;
        let unlock = self.unlock_requested;
        self.close_requested = false;
        self.refresh_requested = false;
        self.lock_requested = None;
        self.unlock_requested = false;
        let change = if unlock {
            Some(LockChange::Unlock)
        } else {
            match lock {
                Some(id) => Some(LockChange::Lock(id)),
                None => None,
            }
        };
        (close, refresh, change)
    }

    /// The body the camera pivots around.
    pub fn focus(&self) -> (f: Focus)
        ensures
            f == focus_of(self.view.focus, self.catalogue),
    {
        Focus::from_id(self.view.focus, &self.catalogue)
    }

    /// Point the camera at a body, from the picker or from a click in the view.
    ///
    /// Cancels the tour — a user choosing a target has to win — and asks the
    /// next frame to reframe, unless the body was the target already.
    pub fn set_focus(&mut self, f: Focus)
        requires
            f matches Focus::Satellite(i) ==> i + NEAR + PLANETS <= usize::MAX,
            f matches Focus::Small(i) ==> i + SMALL_BASE <= usize::MAX,
        ensures
            final(self).view == (Solar3dView { focus: id_of(f), auto: false, ..old(self).view }),
            final(self).retarget == (old(self).retarget || focus_of(
                old(self).view.focus,
                old(self).catalogue,
            ) != f),
            same_window(*old(self), *final(self)),
    {
        if self.focus() != f {
            self.retarget = true;
        }
        self.view.focus = f.to_id();
        self.view.auto = false;
    }

    /// Whether the layer `bit` (or any of the bits of a multi-bit chip) is on.
    pub fn layer(&self, bit: u32) -> (b: bool)
        ensures
            b == (self.view.layers & bit != 0),
    {
        self.view.layers & bit != 0
    }

    /// Turn every bit in `mask` on or off together.
    ///
    /// One chip may stand for more than one layer, and a mask holding only
    /// one of such a pair has to end up with both or neither — never flipped
    /// to the other one.
    pub fn set_layers(&mut self, mask: u32, on: bool)
        ensures
            final(self).view == (Solar3dView {
                layers: if on {
                    old(self).view.layers | mask
                } else {
                    old(self).view.layers & !mask
                },
                ..old(self).view
            }),
            final(self).retarget == old(self).retarget,
            same_window(*old(self), *final(self)),
    {
        if on {
            self.view.layers = self.view.layers | mask;
        } else {
            self.view.layers = self.view.layers & !mask;
        }
    }

    /// Whether a satellite matches what is in the find box; see
    /// [`sat_match`]. An empty box matches nothing: this drives a highlight,
    /// and highlighting every satellite would be the same as none.
    pub fn sat_hit(&self, name: &str, norad_id: u64) -> (b: bool)
        ensures
            b == sat_match(self.search@, name@, norad_id),
            b ==> trim(self.search@).len() > 0,
            trim(self.search@).len() > 0 && occurs(
                vstd::utf8::encode_utf8(dec(norad_id as nat)),
                vstd::utf8::encode_utf8(trim(self.search@)),
            ) ==> b,
            trim(self.search@).len() > 0 && occurs(
                vstd::utf8::encode_utf8(name@),
                vstd::utf8::encode_utf8(trim(self.search@)),
            ) ==> b,
    {
        proof {
            lemma_find_box_finds_substrings(self.search@, name@, norad_id);
        }
        let q = string_of(&trim_chars(self.search.as_str()));
        if q.as_str().unicode_len() == 0 {
            return false;
        }
        let mut digits = String::new();
        push_dec(&mut digits, norad_id);
        contains_ignore_ascii_case(name, q.as_str()) || contains_ignore_ascii_case(
            digits.as_str(),
            q.as_str(),
        )
    }
}

/// Switching a group of layers on lights every one of them, switching it off
/// darkens every one, and no layer outside the group moves either way.
pub proof fn lemma_set_layers(layers: u32, mask: u32)
    ensures
        (layers | mask) & mask == mask,
        (layers & !mask) & mask == 0,
        (layers | mask) & !mask == layers & !mask,
        (layers & !mask) & !mask == layers & !mask,
{
    assert((layers | mask) & mask == mask) by (bit_vector);
    assert((layers & !mask) & mask == 0) by (bit_vector);
    assert((layers | mask) & !mask == layers & !mask) by (bit_vector);
    assert((layers & !mask) & !mask == layers & !mask) by (bit_vector);
}

} // verus!

verus! {

/// A planet's name.
pub open spec fn planet_name(p: Planet) -> Seq<char> {
    match p {
        Planet::Mercury => "Mercury"@,
        Planet::Venus => "Venus"@,
        Planet::Mars => "Mars"@,
        Planet::Jupiter => "Jupiter"@,
        Planet::Saturn => "Saturn"@,
        Planet::Uranus => "Uranus"@,
        Planet::Neptune => "Neptune"@,
    }
}

impl Planet {
    /// The planet's name.
    pub fn name(self) -> (r: &'static str)
        ensures
            r@ == planet_name(self),
    {
        match self {
            Planet::Mercury => "Mercury",
            Planet::Venus => "Venus",
            Planet::Mars => "Mars",
            Planet::Jupiter => "Jupiter",
            Planet::Saturn => "Saturn",
            Planet::Uranus => "Uranus",
            Planet::Neptune => "Neptune",
        }
    }
}

/// What a target is called; a table index past the end of its table reads
/// as the Sun, which is where such an id lands too.
pub open spec fn label_of(f: Focus, c: Catalogue) -> Seq<char> {
    match f {
        Focus::Sun => "Sun"@,
        Focus::Earth => "Earth"@,
        Focus::Moon => "Moon"@,
        Focus::EarthMoon => "Earth + Moon"@,
        Focus::Planet(p) => planet_name(p),
        Focus::Satellite(i) => if i < c.moon_list().len() {
            c.moon_list()[i as int].name@
        } else {
            "Sun"@
        },
        Focus::Small(i) => if i < c.body_list().len() {
            c.body_list()[i as int].name@
        } else {
            "Sun"@
        },
    }
}

/// The moons of `p`, in table order.
pub open spec fn moons_of(moons: Seq<MoonEntry>, p: Planet) -> Seq<Focus>
    decreases moons.len(),
{
    if moons.len() == 0 {
        Seq::empty()
    } else {
        let rest = moons_of(moons.drop_last(), p);
        if moons.last().parent == p {
            rest.push(Focus::Satellite((moons.len() - 1) as usize))
        } else {
            rest
        }
    }
}

/// The small bodies whose `dwarf` flag is `dwarf`, in table order.
pub open spec fn smalls_of(bodies: Seq<SmallEntry>, dwarf: bool) -> Seq<Focus>
    decreases bodies.len(),
{
    if bodies.len() == 0 {
        Seq::empty()
    } else {
        let rest = smalls_of(bodies.drop_last(), dwarf);
        if bodies.last().dwarf == dwarf {
            rest.push(Focus::Small((bodies.len() - 1) as usize))
        } else {
            rest
        }
    }
}

/// The four near targets, in their persisted order.
pub open spec fn near_targets() -> Seq<Focus> {
    seq![Focus::Sun, Focus::Earth, Focus::Moon, Focus::EarthMoon]
}

/// A planet's row in the picker: the planet, then its own moons.
pub open spec fn planet_row(c: Catalogue, p: Planet) -> Seq<Focus> {
    seq![Focus::Planet(p)] + moons_of(c.moon_list(), p)
}

/// The picker's rows, titled: the near targets, a row per planet, then the
/// dwarf planets.
pub open spec fn group_rows(c: Catalogue) -> Seq<(Seq<char>, Seq<Focus>)> {
    seq![("HOME"@, near_targets())] + Seq::new(
        PLANETS as nat,
        |k: int| (planet_name(planet_at(k)), planet_row(c, planet_at(k))),
    ) + seq![("DWARF PLANETS"@, smalls_of(c.body_list(), true))]
}

/// The rows' targets, one row after another.
pub open spec fn flat(rows: Seq<(Seq<char>, Seq<Focus>)>) -> Seq<Focus>
    decreases rows.len(),
{
    if rows.len() == 0 {
        Seq::empty()
    } else {
        flat(rows.drop_last()) + rows.last().1
    }
}

/// Every target: the picker's, then the small bodies it leaves to the find
/// box.
pub open spec fn all_targets(c: Catalogue) -> Seq<Focus> {
    flat(group_rows(c)) + smalls_of(c.body_list(), false)
}

/// The targets of a slice of foci, pushed onto `out` in order.
fn push_all(out: &mut Vec<Focus>, row: &Vec<Focus>)
    ensures
        final(out)@ == old(out)@ + row@,
{
    let mut i: usize = 0;
    while i < row.len()
        invariant
            i <= row@.len(),
            out@ == old(out)@ + row@.take(i as int),
        decreases row@.len() - i,
    {
        proof {
            assert(row@.take(i + 1) =~= row@.take(i as int).push(row@[i as int]));
        }
        out.push(row[i]);
        i = i + 1;
    }
    assert(row@.take(row@.len() as int) =~= row@);
}

/// The moons of `p`, in table order.
fn moons_for(moons: &Vec<MoonEntry>, p: Planet) -> (r: Vec<Focus>)
    ensures
        r@ == moons_of(moons@, p),
{
    let mut r: Vec<Focus> = Vec::new();
    let mut i: usize = 0;
    while i < moons.len()
        invariant
            i <= moons@.len(),
            r@ == moons_of(moons@.take(i as int), p),
        decreases moons@.len() - i,
    {
        proof {
            assert(moons@.take(i + 1).drop_last() =~= moons@.take(i as int));
        }
        if moons[i].parent == p {
            r.push(Focus::Satellite(i));
        }
        i = i + 1;
    }
    assert(moons@.take(moons@.len() as int) =~= moons@);
    r
}

/// The small bodies whose `dwarf` flag is `dwarf`, in table order.
fn smalls_for(bodies: &Vec<SmallEntry>, dwarf: bool) -> (r: Vec<Focus>)
    ensures
        r@ == smalls_of(bodies@, dwarf),
{
    let mut r: Vec<Focus> = Vec::new();
    let mut i: usize = 0;
    while i < bodies.len()
        invariant
            i <= bodies@.len(),
            r@ == smalls_of(bodies@.take(i as int), dwarf),
        decreases bodies@.len() - i,
    {
        proof {
            assert(bodies@.take(i + 1).drop_last() =~= bodies@.take(i as int));
        }
        if bodies[i].dwarf == dwarf {
            r.push(Focus::Small(i));
        }
        i = i + 1;
    }
    assert(bodies@.take(bodies@.len() as int) =~= bodies@);
    r
}

impl Focus {
    /// What the target is called; see [`label_of`].
    pub fn label<'a>(self, cat: &'a Catalogue) -> (r: &'a str)
        ensures
            r@ == label_of(self, *cat),
    {
        match self {
            Focus::Sun => "Sun",
            Focus::Earth => "Earth",
            Focus::Moon => "Moon",
            Focus::EarthMoon => "Earth + Moon",
            Focus::Planet(p) => p.name(),
            Focus::Satellite(i) => if i < cat.moons.len() {
                cat.moons[i].name.as_str()
            } else {
                "Sun"
            },
            Focus::Small(i) => if i < cat.bodies.len() {
                cat.bodies[i].name.as_str()
            } else {
                "Sun"
            },
        }
    }

    /// Short upper-case form for the button face: the label in capitals, but
    /// `E+M` for the Earth–Moon pair, whose label would not fit.
    pub fn short(self, cat: &Catalogue) -> (r: String)
        ensures
            r@ == if self == Focus::EarthMoon {
                "E+M"@
            } else {
                uppercase(label_of(self, *cat))
            },
    {
        match self {
            Focus::EarthMoon => "E+M".to_owned(),
            f => to_uppercase(f.label(cat)),
        }
    }

    /// Every target, grouped the way the picker lays them out: the Sun and
    /// the Earth–Moon system first, then a row per planet with its own moons,
    /// then the dwarf planets. The other small bodies are left to the find
    /// box, which is how one looks for a body one already has in mind.
    pub fn groups(cat: &Catalogue) -> (r: Vec<(String, Vec<Focus>)>)
        ensures
            r@.len() == group_rows(*cat).len(),
            forall|j: int|
                0 <= j < r@.len() ==> (#[trigger] r@[j]).0@ == group_rows(*cat)[j].0 && r@[j].1@
                    == group_rows(*cat)[j].1,
    {
        let ghost rows = group_rows(*cat);
        let mut v: Vec<(String, Vec<Focus>)> = Vec::new();
        v.push(("HOME".to_owned(), vec![Focus::Sun, Focus::Earth, Focus::Moon, Focus::EarthMoon]));
        proof {
            assert(v@[0].1@ =~= near_targets());
        }
        let mut k: usize = 0;
        while k < PLANETS
            invariant
                k <= PLANETS,
                rows == group_rows(*cat),
                v@.len() == k + 1,
                forall|j: int|
                    0 <= j < v@.len() ==> (#[trigger] v@[j]).0@ == rows[j].0 && v@[j].1@
                        == rows[j].1,
            decreases PLANETS - k,
        {
            let p = Planet::at(k);
            let mut row: Vec<Focus> = vec![Focus::Planet(p)];
            let moons = moons_for(&cat.moons, p);
            push_all(&mut row, &moons);
            proof {
                assert(row@ =~= planet_row(*cat, p));
                assert(rows[k + 1] == (planet_name(planet_at(k as int)), planet_row(*cat, planet_at(k as int))));
            }
            v.push((p.name().to_owned(), row));
            k = k + 1;
        }
        let dwarfs = smalls_for(&cat.bodies, true);
        v.push(("DWARF PLANETS".to_owned(), dwarfs));
        v
    }

    /// Every target, flattened: the picker's, then the small bodies it leaves
    /// to the find box.
    pub fn all(cat: &Catalogue) -> (r: Vec<Focus>)
        ensures
            r@ == all_targets(*cat),
    {
        let g = Focus::groups(cat);
        let ghost rows = group_rows(*cat);
        let mut v: Vec<Focus> = Vec::new();
        let mut j: usize = 0;
        while j < g.len()
            invariant
                j <= g@.len(),
                g@.len() == rows.len(),
                rows == group_rows(*cat),
                forall|t: int|
                    0 <= t < g@.len() ==> (#[trigger] g@[t]).0@ == rows[t].0 && g@[t].1@
                        == rows[t].1,
                v@ == flat(rows.take(j as int)),
            decreases g@.len() - j,
        {
            proof {
                assert(rows.take(j + 1).drop_last() =~= rows.take(j as int));
                assert(g@[j as int].1@ == rows[j as int].1);
            }
            push_all(&mut v, &g[j].1);
            j = j + 1;
        }
        assert(rows.take(rows.len() as int) =~= rows);
        let others = smalls_for(&cat.bodies, false);
        push_all(&mut v, &others);
        v
    }
}

} // verus!

verus! {

proof fn lemma_concat_contains(a: Seq<Focus>, b: Seq<Focus>, f: Focus)
    ensures
        (a + b).contains(f) <==> (a.contains(f) || b.contains(f)),
{
    if a.contains(f) {
        let i = choose|i: int| 0 <= i < a.len() && a[i] == f;
        assert((a + b)[i] == f);
    }
    if b.contains(f) {
        let i = choose|i: int| 0 <= i < b.len() && b[i] == f;
        assert((a + b)[a.len() + i] == f);
    }
    if (a + b).contains(f) {
        let i = choose|i: int| 0 <= i < (a + b).len() && (a + b)[i] == f;
        if i < a.len() {
            assert(a[i] == f);
        } else {
            assert(b[i - a.len()] == f);
        }
    }
}

proof fn lemma_push_contains(a: Seq<Focus>, x: Focus, f: Focus)
    ensures
        a.push(x).contains(f) <==> (a.contains(f) || f == x),
{
    assert(a.push(x) =~= a + seq![x]);
    lemma_concat_contains(a, seq![x], f);
    assert(seq![x][0] == x);
}

/// The moons of `p` are exactly the table's entries whose parent is `p`,
/// and each planet's share of the table adds up to the whole table.
proof fn lemma_moons_of(m: Seq<MoonEntry>)
    requires
        m.len() <= usize::MAX,
    ensures
        forall|p: Planet, f: Focus| #[trigger]
            moons_of(m, p).contains(f) <==> (f matches Focus::Satellite(i) && i < m.len()
                && m[i as int].parent == p),
        moons_of(m, Planet::Mercury).len() + moons_of(m, Planet::Venus).len() + moons_of(
            m,
            Planet::Mars,
        ).len() + moons_of(m, Planet::Jupiter).len() + moons_of(m, Planet::Saturn).len()
            + moons_of(m, Planet::Uranus).len() + moons_of(m, Planet::Neptune).len() == m.len(),
    decreases m.len(),
{
    if m.len() > 0 {
        let head = m.drop_last();
        lemma_moons_of(head);
        let n = (m.len() - 1) as usize;
        assert forall|p: Planet, f: Focus| #[trigger]
            moons_of(m, p).contains(f) <==> (f matches Focus::Satellite(i) && i < m.len()
                && m[i as int].parent == p) by {
            assert(moons_of(head, p).contains(f) <==> (f matches Focus::Satellite(i) && i
                < head.len() && head[i as int].parent == p));
            if m.last().parent == p {
                lemma_push_contains(moons_of(head, p), Focus::Satellite(n), f);
            }
            if let Focus::Satellite(i) = f {
                if i < n {
                    assert(head[i as int] == m[i as int]);
                }
            }
        }
    }
}

/// The dwarf planets and the rest are exactly the table's entries with and
/// without the flag, and together they are the whole table.
proof fn lemma_smalls_of(b: Seq<SmallEntry>)
    requires
        b.len() <= usize::MAX,
    ensures
        forall|d: bool, f: Focus| #[trigger]
            smalls_of(b, d).contains(f) <==> (f matches Focus::Small(i) && i < b.len()
                && b[i as int].dwarf == d),
        smalls_of(b, true).len() + smalls_of(b, false).len() == b.len(),
    decreases b.len(),
{
    if b.len() > 0 {
        let head = b.drop_last();
        lemma_smalls_of(head);
        let n = (b.len() - 1) as usize;
        assert forall|d: bool, f: Focus| #[trigger]
            smalls_of(b, d).contains(f) <==> (f matches Focus::Small(i) && i < b.len()
                && b[i as int].dwarf == d) by {
            assert(smalls_of(head, d).contains(f) <==> (f matches Focus::Small(i) && i
                < head.len() && head[i as int].dwarf == d));
            if b.last().dwarf == d {
                lemma_push_contains(smalls_of(head, d), Focus::Small(n), f);
            }
            if let Focus::Small(i) = f {
                if i < n {
                    assert(head[i as int] == b[i as int]);
                }
            }
        }
    }
}

/// The flattened targets, spelled out row by row.
proof fn lemma_all_targets_spelled(c: Catalogue)
    ensures
        all_targets(c) =~= near_targets() + planet_row(c, Planet::Mercury) + planet_row(
            c,
            Planet::Venus,
        ) + planet_row(c, Planet::Mars) + planet_row(c, Planet::Jupiter) + planet_row(
            c,
            Planet::Saturn,
        ) + planet_row(c, Planet::Uranus) + planet_row(c, Planet::Neptune) + smalls_of(
            c.body_list(),
            true,
        ) + smalls_of(c.body_list(), false),
{
    let rows = group_rows(c);
    assert(rows.len() == 9);
    assert(rows.take(0) =~= Seq::<(Seq<char>, Seq<Focus>)>::empty());
    assert forall|k: int| 1 <= k <= 9 implies flat(#[trigger] rows.take(k)) == flat(rows.take(k - 1))
        + rows[k - 1].1 by {
        assert(rows.take(k).drop_last() =~= rows.take(k - 1));
    }
    assert(rows.take(9) =~= rows);
    assert(rows[0].1 == near_targets());
    assert(rows[1].1 == planet_row(c, Planet::Mercury));
    assert(rows[2].1 == planet_row(c, Planet::Venus));
    assert(rows[3].1 == planet_row(c, Planet::Mars));
    assert(rows[4].1 == planet_row(c, Planet::Jupiter));
    assert(rows[5].1 == planet_row(c, Planet::Saturn));
    assert(rows[6].1 == planet_row(c, Planet::Uranus));
    assert(rows[7].1 == planet_row(c, Planet::Neptune));
    assert(rows[8].1 == smalls_of(c.body_list(), true));
    assert(flat(rows.take(1)) == Seq::<Focus>::empty() + rows[0].1);
    assert(flat(rows.take(2)) == flat(rows.take(1)) + rows[1].1);
    assert(flat(rows.take(3)) == flat(rows.take(2)) + rows[2].1);
    assert(flat(rows.take(4)) == flat(rows.take(3)) + rows[3].1);
    assert(flat(rows.take(5)) == flat(rows.take(4)) + rows[4].1);
    assert(flat(rows.take(6)) == flat(rows.take(5)) + rows[5].1);
    assert(flat(rows.take(7)) == flat(rows.take(6)) + rows[6].1);
    assert(flat(rows.take(8)) == flat(rows.take(7)) + rows[7].1);
    assert(flat(rows.take(9)) == flat(rows.take(8)) + rows[8].1);
    assert(Seq::<Focus>::empty() + near_targets() =~= near_targets());
}

/// The flattened list holds every target the catalogue has and nothing
/// else: the near targets, each planet, each moon and each small body, one
/// entry apiece.
pub proof fn lemma_all_lists_every_target(c: Catalogue)
    requires
        c.moon_list().len() <= usize::MAX,
        c.body_list().len() <= usize::MAX,
    ensures
        all_targets(c).len() == NEAR + PLANETS + c.moon_list().len() + c.body_list().len(),
        forall|f: Focus| #[trigger] all_targets(c).contains(f) <==> focus_ok(f, c),
{
    lemma_all_targets_spelled(c);
    lemma_moons_of(c.moon_list());
    lemma_smalls_of(c.body_list());
    let m = c.moon_list();
    let a = near_targets();
    let r0 = planet_row(c, Planet::Mercury);
    let r1 = planet_row(c, Planet::Venus);
    let r2 = planet_row(c, Planet::Mars);
    let r3 = planet_row(c, Planet::Jupiter);
    let r4 = planet_row(c, Planet::Saturn);
    let r5 = planet_row(c, Planet::Uranus);
    let r6 = planet_row(c, Planet::Neptune);
    let dw = smalls_of(c.body_list(), true);
    let ot = smalls_of(c.body_list(), false);
    assert forall|f: Focus| #[trigger] all_targets(c).contains(f) <==> focus_ok(f, c) by {
        lemma_concat_contains(a, r0, f);
        lemma_concat_contains(a + r0, r1, f);
        lemma_concat_contains(a + r0 + r1, r2, f);
        lemma_concat_contains(a + r0 + r1 + r2, r3, f);
        lemma_concat_contains(a + r0 + r1 + r2 + r3, r4, f);
        lemma_concat_contains(a + r0 + r1 + r2 + r3 + r4, r5, f);
        lemma_concat_contains(a + r0 + r1 + r2 + r3 + r4 + r5, r6, f);
        lemma_concat_contains(a + r0 + r1 + r2 + r3 + r4 + r5 + r6, dw, f);
        lemma_concat_contains(a + r0 + r1 + r2 + r3 + r4 + r5 + r6 + dw, ot, f);
        assert forall|p: Planet| #[trigger] planet_row(c, p).contains(f) <==> (f == Focus::Planet(p)
            || moons_of(m, p).contains(f)) by {
            lemma_concat_contains(seq![Focus::Planet(p)], moons_of(m, p), f);
            assert(seq![Focus::Planet(p)][0] == Focus::Planet(p));
            if seq![Focus::Planet(p)].contains(f) {
                let i = choose|i: int| 0 <= i < 1 && seq![Focus::Planet(p)][i] == f;
            }
        }
        match f {
            Focus::Sun => {
                assert(a[0] == f);
            },
            Focus::Earth => {
                assert(a[1] == f);
            },
            Focus::Moon => {
                assert(a[2] == f);
            },
            Focus::EarthMoon => {
                assert(a[3] == f);
            },
            _ => {
                if a.contains(f) {
                    let i = choose|i: int| 0 <= i < a.len() && a[i] == f;
                }
            },
        }
    }
}

} // verus!
