use sdroxide_ui::sstv::{
    claim_message, commit_message, crop_scale, decode_image, encode_png, expand,
    load_source_bounded, message_shown, put, Banner, Command, DigiConfig, ImagePresets,
    ImageSlotInfo, BANNER_PLACEHOLDERS, VERSION,
};

fn presets(messages: &[&str]) -> ImagePresets {
    ImagePresets {
        slots: messages
            .iter()
            .map(|m| ImageSlotInfo { message: (*m).into() })
            .collect(),
    }
}

#[test]
fn a_server_echo_does_not_clobber_the_slot_being_typed_in() {
    let p = presets(&["a", "b", "old", "d", "e"]);
    let edit = Some((2, "CQ CQ de OE1TEST".to_string()));
    assert_eq!(message_shown(&edit, &p, 2), "CQ CQ de OE1TEST");
}

#[test]
fn an_edit_made_elsewhere_reaches_every_slot_but_the_one_in_hand() {
    let p = presets(&["a", "b", "old", "d", "e"]);
    let edit = Some((2, "typing".to_string()));
    assert_eq!(message_shown(&edit, &p, 0), "a");
    assert_eq!(message_shown(&edit, &p, 3), "d");
    assert_eq!(message_shown(&None, &p, 2), "old");
    assert_eq!(message_shown(&None, &p, 99), "");
}

#[test]
fn leaving_a_slot_commits_it_and_gives_it_back() {
    let p = presets(&["a", "b", "old", "d", "e"]);
    let mut edit = Some((2, "new".to_string()));
    let cmd = commit_message(&mut edit, &p);
    assert_eq!(cmd, Some(Command::ImageSetMessage { slot: 2, message: "new".into() }));
    assert!(edit.is_none(), "the claim is released");

    let mut edit = Some((2, "old".to_string()));
    assert_eq!(commit_message(&mut edit, &p), None);
    assert!(edit.is_none());
    assert_eq!(commit_message(&mut None, &p), None);
}

#[test]
fn switching_slots_takes_the_engines_text_for_the_new_one() {
    let p = presets(&["a", "b", "old", "d", "e"]);
    let mut edit = Some((2, "half-typed".to_string()));
    let cmd = claim_message(&mut edit, &p, 4);
    assert_eq!(cmd, Some(Command::ImageSetMessage { slot: 2, message: "half-typed".into() }));
    assert_eq!(edit, Some((4, "e".to_string())));
    edit = Some((4, "e and more".to_string()));
    assert_eq!(claim_message(&mut edit, &p, 4), None);
    assert_eq!(edit, Some((4, "e and more".to_string())));
}

#[test]
fn a_slot_past_the_engines_list_is_committed_and_claimed_empty() {
    let p = presets(&["a"]);
    let mut edit = Some((300, "x".to_string()));
    // The slot travels as a byte, as the command carries it.
    assert_eq!(
        commit_message(&mut edit, &p),
        Some(Command::ImageSetMessage { slot: 44, message: "x".into() })
    );
    let mut edit = None;
    assert_eq!(claim_message(&mut edit, &p, 7), None);
    assert_eq!(edit, Some((7, String::new())));
}

#[test]
fn the_stock_banner_is_the_header_that_was_hard_wired() {
    let cfg = DigiConfig { my_call: "oe1test".into(), ..DigiConfig::default() };
    let b = Banner::from_config(&cfg).expect("on by default");
    assert_eq!(b.left, "OE1TEST");
    assert_eq!(b.right, "SDRoxide v0.1.0");
    assert_eq!(b.height, 16);
    assert_eq!(b.fill, [170, 0, 0]);
}

#[test]
fn switching_the_banner_off_leaves_no_strip_to_draw() {
    let cfg = DigiConfig { sstv_banner: false, ..DigiConfig::default() };
    assert_eq!(Banner::from_config(&cfg), None);
}

#[test]
fn a_zero_height_banner_is_one_pixel_and_the_style_switches_pick_the_colours() {
    let mut cfg = DigiConfig { sstv_banner_height: 0, ..DigiConfig::default() };
    cfg.sstv_style.banner_gradient = true;
    cfg.sstv_style.banner_fill2 = [0, 0, 200];
    cfg.sstv_style.banner_outline = true;
    cfg.sstv_style.banner_outline_ink = [255, 0, 0];
    let b = Banner::from_config(&cfg).unwrap();
    assert_eq!(b.height, 1);
    assert_eq!(b.fill2, Some([0, 0, 200]));
    assert_eq!(b.ink2, None);
    assert_eq!(b.outline, Some([255, 0, 0]));
    assert!(!b.rainbow);
    assert_eq!(b.left, "");
}

#[test]
fn only_the_callsign_is_uppercased() {
    assert_eq!(expand("de {call} ", " oe1test ", ""), "de OE1TEST ");
    assert_eq!(expand("SDRoxide {grid}", "", "jn88"), "SDRoxide jn88");
    assert_eq!(expand("v{version}", "", ""), "v0.1.0");
    assert_eq!(expand("{CALL}", "oe1test", ""), "OE1TEST");
}

#[test]
fn an_unknown_placeholder_survives_untouched() {
    assert_eq!(expand("{callsign} {call}", "oe1test", ""), "{callsign} OE1TEST");
    assert_eq!(expand("100% {open", "", ""), "100% {open");
    assert_eq!(expand("}{}{", "", ""), "}{}{");
}

#[test]
fn a_brace_inside_a_placeholder_belongs_to_it() {
    assert_eq!(expand("{a{call}", "x", ""), "{a{call}");
    assert_eq!(expand("{Grid}/{VERSION}", "", " JN88 "), "JN88/0.1.0");
    assert_eq!(VERSION, "0.1.0");
}

#[test]
fn a_pixel_outside_the_picture_is_ignored() {
    let mut img = vec![0u8; 2 * 2 * 3];
    put(&mut img, 2, 2, 1, 1, 9, 8, 7);
    assert_eq!(&img[9..12], &[9, 8, 7]);
    put(&mut img, 2, 2, -1, 0, 1, 1, 1);
    put(&mut img, 2, 2, 2, 0, 1, 1, 1);
    put(&mut img, 2, 2, 0, 2, 1, 1, 1);
    assert_eq!(&img[0..9], &[0u8; 9]);
}

#[test]
fn a_picture_survives_the_trip_through_png() {
    let rgb: Vec<u8> = (0..2 * 3 * 3).map(|i| (i * 10) as u8).collect();
    let png = encode_png(&rgb, 2, 3).expect("encodes");
    assert_eq!(decode_image(&png), Some((rgb.clone(), 2, 3)));
    assert_eq!(load_source_bounded(&png, 10), Some((rgb.clone(), 2, 3)));
    // Too short a buffer for the stated size is refused.
    assert_eq!(encode_png(&rgb[..5], 2, 3), None);
    assert_eq!(decode_image(b"not a picture"), None);
}

#[test]
fn a_large_source_is_scaled_into_the_bound() {
    let rgb = vec![200u8; 40 * 20 * 3];
    let png = encode_png(&rgb, 40, 20).unwrap();
    let (px, w, h) = load_source_bounded(&png, 10).unwrap();
    assert_eq!((w, h), (10, 5));
    assert_eq!(px.len(), 10 * 5 * 3);
}

#[test]
fn cropping_fills_the_frame_and_a_short_source_gives_black() {
    let src = vec![200u8; 4 * 4 * 3];
    let out = crop_scale(&src, 4, 4, 2, 3);
    assert_eq!(out.len(), 2 * 3 * 3);
    assert!(out.iter().all(|&b| b == 200));
    assert_eq!(crop_scale(&src[..10], 4, 4, 2, 2), vec![0u8; 12]);
}

#[test]
fn every_listed_placeholder_is_one_expand_fills_in() {
    for (p, hint) in BANNER_PLACEHOLDERS {
        assert!(!hint.is_empty());
        assert_ne!(expand(p, "oe1test", "jn88"), p, "{p} came through untouched");
    }
}
