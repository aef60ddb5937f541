use sdroxide_ui::solar::{
    Catalogue, Focus, LayerMasks, LockChange, MoonEntry, Planet, Solar3dView, SmallEntry, SolarUi,
};

/// A catalogue shaped like the real one: moons listed planet by planet,
/// a few dwarf planets among the small bodies.
fn cat() -> Catalogue {
    let mut moons = Vec::new();
    for (name, parent) in [
        ("Phobos", Planet::Mars),
        ("Deimos", Planet::Mars),
        ("Io", Planet::Jupiter),
        ("Europa", Planet::Jupiter),
        ("Ganymede", Planet::Jupiter),
        ("Callisto", Planet::Jupiter),
        ("Titan", Planet::Saturn),
        ("Enceladus", Planet::Saturn),
        ("Titania", Planet::Uranus),
        ("Triton", Planet::Neptune),
    ] {
        moons.push(MoonEntry { name: name.to_string(), parent });
    }
    let mut bodies = Vec::new();
    for (name, dwarf) in [
        ("Ceres", true),
        ("Vesta", false),
        ("Pluto", true),
        ("Apophis", false),
        ("Eris", true),
        ("1P/Halley", false),
    ] {
        bodies.push(SmallEntry { name: name.to_string(), dwarf });
    }
    Catalogue::new(moons, bodies).expect("the tables fit the encoding")
}

fn view() -> Solar3dView {
    Solar3dView { focus: 0, auto: false, layers: 0b1011 }
}

fn masks() -> LayerMasks {
    LayerMasks { all: 0b1111, previous_all: vec![0b0111, 0b0011] }
}

#[test]
fn every_target_round_trips_through_its_persisted_id() {
    let cat = cat();
    for f in Focus::all(&cat) {
        assert_eq!(Focus::from_id(f.to_id(), &cat), f, "{f:?} did not survive");
    }
    for (i, f) in Focus::NEAR.iter().enumerate() {
        assert_eq!(f.to_id() as usize, i, "{f:?} moved off its historical index");
    }
    assert_eq!(Focus::Planet(Planet::Mercury).to_id(), 4);
    assert_eq!(Focus::Satellite(0).to_id(), 4 + 7);
    assert!(Focus::Satellite(cat.moons().len() - 1).to_id() < 256);
    assert!(Focus::Small(0).to_id() >= 256);
    let mut seen: Vec<u16> = Focus::all(&cat).iter().map(|f| f.to_id()).collect();
    let count = seen.len();
    seen.sort_unstable();
    seen.dedup();
    assert_eq!(seen.len(), count, "two targets encode to the same id");
}

#[test]
fn an_unknown_target_id_falls_back_to_the_sun() {
    let cat = cat();
    assert_eq!(Focus::from_id(u16::MAX, &cat), Focus::Sun);
    assert_eq!(Focus::from_id(200, &cat), Focus::Sun);
    assert_eq!(Focus::from_id(256 + cat.bodies().len() as u16, &cat), Focus::Sun);
}

#[test]
fn the_picker_lists_every_body_with_its_planet() {
    let cat = cat();
    let all = Focus::all(&cat);
    assert_eq!(all.len(), 4 + 7 + cat.moons().len() + cat.bodies().len());
    let jupiter = all.iter().position(|f| *f == Focus::Planet(Planet::Jupiter));
    let after = &all[jupiter.expect("Jupiter is in the list") + 1..][..4];
    for f in after {
        let Focus::Satellite(i) = f else { panic!("{f:?} is not a moon") };
        assert_eq!(cat.moons()[*i].parent, Planet::Jupiter);
    }
    assert_eq!(after[0].label(&cat), "Io");
}

#[test]
fn the_picker_rows_are_home_the_planets_and_the_dwarfs() {
    let cat = cat();
    let groups = Focus::groups(&cat);
    let titles: Vec<&str> = groups.iter().map(|(t, _)| t.as_str()).collect();
    assert_eq!(
        titles,
        vec!["HOME", "Mercury", "Venus", "Mars", "Jupiter", "Saturn", "Uranus", "Neptune", "DWARF PLANETS"]
    );
    assert_eq!(groups[0].1, Focus::NEAR.to_vec());
    assert_eq!(groups[1].1, vec![Focus::Planet(Planet::Mercury)]);
    assert_eq!(groups[3].1, vec![Focus::Planet(Planet::Mars), Focus::Satellite(0), Focus::Satellite(1)]);
    assert_eq!(groups[8].1, vec![Focus::Small(0), Focus::Small(2), Focus::Small(4)]);
    let all = Focus::all(&cat);
    assert_eq!(&all[all.len() - 3..], &[Focus::Small(1), Focus::Small(3), Focus::Small(5)]);
}

#[test]
fn a_target_reads_by_its_name_and_shouts_on_its_button() {
    let cat = cat();
    assert_eq!(Focus::EarthMoon.label(&cat), "Earth + Moon");
    assert_eq!(Focus::EarthMoon.short(&cat), "E+M");
    assert_eq!(Focus::Planet(Planet::Saturn).label(&cat), "Saturn");
    assert_eq!(Focus::Planet(Planet::Saturn).short(&cat), "SATURN");
    assert_eq!(Focus::Satellite(6).short(&cat), "TITAN");
    assert_eq!(Focus::Small(5).label(&cat), "1P/Halley");
    assert_eq!(Focus::Small(99).label(&cat), "Sun");
    assert_eq!(Focus::Satellite(99).short(&cat), "SUN");
}

#[test]
fn the_planets_keep_their_order() {
    let names = [
        Planet::Mercury,
        Planet::Venus,
        Planet::Mars,
        Planet::Jupiter,
        Planet::Saturn,
        Planet::Uranus,
        Planet::Neptune,
    ];
    for (i, p) in names.iter().enumerate() {
        assert_eq!(p.index(), i);
        assert_eq!(Planet::at(i), *p);
        assert_eq!(Focus::from_id(4 + i as u16, &cat()), Focus::Planet(*p));
    }
    assert!(Focus::Moon.is_satellite());
    assert!(Focus::Satellite(3).is_satellite());
    assert!(!Focus::Planet(Planet::Jupiter).is_satellite());
}

#[test]
fn the_search_matches_names_and_catalogue_numbers() {
    let mut st = SolarUi::new(view(), cat(), &masks());
    assert!(!st.sat_hit("ISS", 25544));
    st.search = "   ".into();
    assert!(!st.sat_hit("ISS", 25544));

    st.search = "iss".into();
    assert!(st.sat_hit("ISS", 25544));
    assert!(!st.sat_hit("AO-73", 39444));
    st.search = "o-7".into();
    assert!(st.sat_hit("AO-73", 39444));
    assert!(st.sat_hit("ao-7", 7530));
    assert!(!st.sat_hit("RS-44", 44909));
    st.search = "25544".into();
    assert!(st.sat_hit("ISS", 25544));
    assert!(!st.sat_hit("ISS", 25545));
    st.search = "  QO-100 ".into();
    assert!(st.sat_hit("QO-100", 43700));
    st.search = "QO-100-AND-MORE".into();
    assert!(!st.sat_hit("QO-100", 43700));
}

#[test]
fn choosing_a_target_stops_the_tour_and_asks_for_a_reframe() {
    let mut st = SolarUi::new(view(), cat(), &masks());
    st.view.auto = true;
    st.set_focus(Focus::Planet(Planet::Saturn));
    assert!(!st.view.auto, "the tour kept driving after the user picked a target");
    assert!(st.retarget);
    assert_eq!(st.focus(), Focus::Planet(Planet::Saturn));

    st.retarget = false;
    st.set_focus(Focus::Planet(Planet::Saturn));
    assert!(!st.retarget);
}

#[test]
fn an_old_everything_mask_turns_on_the_layers_added_since() {
    let st = SolarUi::new(Solar3dView { layers: 0b0111, ..view() }, cat(), &masks());
    assert_eq!(st.view.layers, 0b1111);
    let st = SolarUi::new(view(), cat(), &masks());
    assert_eq!(st.view.layers, 0b1011, "a hand-picked mask is kept");
    assert!(!st.retarget);
    assert!(st.search.is_empty());
}

#[test]
fn a_multi_bit_chip_switches_all_its_layers_together() {
    let mut st = SolarUi::new(Solar3dView { layers: 0b0001, ..view() }, cat(), &masks());
    assert!(st.layer(0b0011), "one bit of the pair lights the chip");
    st.set_layers(0b0011, false);
    assert_eq!(st.view.layers, 0);
    assert!(!st.layer(0b0011));
    st.set_layers(0b0011, true);
    assert_eq!(st.view.layers, 0b0011);
    st.set_layers(0b1000, true);
    assert_eq!(st.view.layers, 0b1011);
}

#[test]
fn a_lock_change_carries_its_satellite() {
    assert_eq!(LockChange::Lock(25544), LockChange::Lock(25544));
    assert_ne!(LockChange::Lock(25544), LockChange::Unlock);
}

#[test]
fn the_hosts_requests_are_taken_once_and_unlock_wins() {
    let mut st = SolarUi::new(view(), cat(), &masks());
    assert_eq!(st.take_requests(), (false, false, None));
    st.close_requested = true;
    st.lock_requested = Some(25544);
    assert_eq!(st.take_requests(), (true, false, Some(LockChange::Lock(25544))));
    assert_eq!(st.take_requests(), (false, false, None), "a request is acted on once");
    st.refresh_requested = true;
    st.lock_requested = Some(25544);
    st.unlock_requested = true;
    assert_eq!(st.take_requests(), (false, true, Some(LockChange::Unlock)));
    assert!(st.lock_requested.is_none() && !st.unlock_requested);
}

#[test]
fn a_catalogue_that_would_not_fit_the_encoding_is_refused() {
    let moon = |i: usize| MoonEntry { name: format!("M{i}"), parent: Planet::Saturn };
    let most: Vec<MoonEntry> = (0..256 - 11).map(moon).collect();
    assert!(Catalogue::new(most, Vec::new()).is_some(), "the last moon id below 256 is fine");
    let too_many: Vec<MoonEntry> = (0..256 - 10).map(moon).collect();
    assert!(Catalogue::new(too_many, Vec::new()).is_none());
    let body = |i: usize| SmallEntry { name: format!("B{i}"), dwarf: false };
    assert!(Catalogue::new(Vec::new(), (0..65536 - 256).map(body).collect()).is_some());
    assert!(Catalogue::new(Vec::new(), (0..65536 - 255).map(body).collect()).is_none());
}
