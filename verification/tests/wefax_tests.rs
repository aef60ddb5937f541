use sdroxide_ui::sstv::encode_png;
use sdroxide_ui::wefax::{decode_gray, gray_raster, Chart, WefaxUi, GALLERY_MAX, MAX_W};

fn pixels(ui: &WefaxUi<()>) -> Vec<u8> {
    ui.live_pixels().clone()
}

#[test]
fn rows_build_the_chart_downwards() {
    let mut ui: WefaxUi<()> = WefaxUi::new();
    for y in 0..4u16 {
        ui.push_line(1, y, &[y as u8; 8]);
    }
    assert_eq!(ui.live_size(), (8, 4));
    let live = pixels(&ui);
    assert_eq!(live[0], 0);
    assert_eq!(live[8], 1);
    assert_eq!(live[24], 3);
    assert!(ui.has_live());
}

#[test]
fn a_dropped_row_leaves_a_band_rather_than_a_seam() {
    let mut ui: WefaxUi<()> = WefaxUi::new();
    ui.push_line(1, 0, &[10; 4]);
    ui.push_line(1, 3, &[20; 4]);
    assert_eq!(ui.live_size(), (4, 4));
    let live = pixels(&ui);
    assert_eq!(live[0], 10);
    assert_eq!(&live[4..12], &[128; 8], "the gap should be mid-grey");
    assert_eq!(live[12], 20);
}

#[test]
fn a_new_transmission_starts_a_new_chart() {
    let mut ui: WefaxUi<()> = WefaxUi::new();
    ui.push_line(1, 0, &[1; 4]);
    ui.push_line(1, 1, &[2; 4]);
    assert_eq!(ui.live_size(), (4, 2));
    ui.push_line(2, 0, &[3; 6]);
    assert_eq!(ui.live_size(), (6, 1), "the width should follow the new picture");
    assert_eq!(pixels(&ui)[0], 3);
    ui.clear_live();
    assert!(!ui.has_live());
    assert_eq!(ui.live_size(), (6, 0));
}

fn chart(i: i64) -> Chart<()> {
    Chart {
        texture: (),
        full: None,
        name: format!("wefax-2026072{i}-141530Z.png"),
        size: (2, 2),
        unix: 1_000 + i,
    }
}

fn gallery_of(n: i64) -> WefaxUi<()> {
    let mut ui: WefaxUi<()> = WefaxUi::new();
    for i in 0..n {
        let c = chart(i);
        ui.on_saved(c.name.clone(), Some(c));
    }
    ui
}

#[test]
fn deleting_a_chart_carries_the_viewer_to_the_next_one() {
    let mut ui = gallery_of(4);
    assert_eq!(ui.gallery.len(), 4);
    assert_eq!(ui.total, 4);
    let names: Vec<String> = ui.gallery.charts().iter().map(|c| c.name.clone()).collect();

    ui.viewing = Some(2);
    ui.on_deleted(&names[0]);
    assert_eq!(ui.viewing, Some(1));
    assert_eq!(ui.gallery.charts()[1].name, names[2], "the viewer must stay on its chart");
    assert_eq!(ui.total, 3, "the store shrank by one");

    ui.on_deleted(&names[2]);
    assert_eq!(ui.viewing, Some(1));
    assert_eq!(ui.gallery.charts()[1].name, names[3]);

    ui.on_deleted(&names[3]);
    assert_eq!(ui.viewing, None);
    assert_eq!(ui.gallery.len(), 1);

    ui.total = 40;
    ui.on_deleted("wefax-20990101-000000Z.png");
    assert_eq!((ui.gallery.len(), ui.total), (1, 40));
}

#[test]
fn an_armed_delete_does_not_survive_its_chart() {
    let mut ui = gallery_of(2);
    let name = ui.gallery.charts()[0].name.clone();
    ui.confirm_delete = Some(name.clone());
    ui.on_deleted(&name);
    assert_eq!(ui.confirm_delete, None);
}

#[test]
fn malformed_rows_are_refused() {
    let mut ui: WefaxUi<()> = WefaxUi::new();
    ui.push_line(1, 0, &[]);
    assert!(!ui.has_live());
    ui.push_line(1, 0, &vec![0u8; MAX_W + 1]);
    assert!(!ui.has_live());
    ui.push_line(1, 0, &[1; 8]);
    ui.push_line(1, 1, &[1; 9]);
    assert_eq!(ui.live_size(), (8, 1));
    ui.push_line(1, 5, &[2; 8]);
    assert_eq!(ui.live_size(), (8, 6), "the gap is filled forwards");
}

#[test]
fn a_row_behind_the_write_head_is_dropped() {
    let mut ui: WefaxUi<()> = WefaxUi::new();
    ui.push_line(1, 0, &[1; 4]);
    ui.push_line(1, 1, &[2; 4]);
    ui.push_line(1, 1, &[9; 4]);
    assert_eq!(ui.live_size(), (4, 2));
    assert_eq!(pixels(&ui)[4], 2);
}

#[test]
fn the_gallery_is_newest_first_and_holds_each_chart_once() {
    let mut ui: WefaxUi<()> = WefaxUi::new();
    ui.on_listing(7, "/charts".into(), vec![chart(1), chart(3), chart(2), chart(3)]);
    let unix: Vec<i64> = ui.gallery.charts().iter().map(|c| c.unix).collect();
    assert_eq!(unix, vec![1003, 1002, 1001]);
    assert_eq!(ui.total, 7);
    assert_eq!(ui.dir, "/charts");
    assert!(!ui.page_pending);
    // A viewer stays on its chart when a newer one goes in above it.
    ui.viewing = Some(1);
    ui.insert_entry(chart(5));
    assert_eq!(ui.viewing, Some(2));
    assert_eq!(ui.gallery.charts()[2].unix, 1002);
}

#[test]
fn the_gallery_keeps_only_the_newest_thumbnails() {
    let mut ui: WefaxUi<()> = WefaxUi::new();
    for i in 0..(GALLERY_MAX as i64 + 5) {
        ui.insert_entry(Chart {
            texture: (),
            full: None,
            name: format!("c{i}"),
            size: (1, 1),
            unix: i,
        });
    }
    assert_eq!(ui.gallery.len(), GALLERY_MAX);
    assert_eq!(ui.gallery.charts()[0].unix, GALLERY_MAX as i64 + 4);
    assert!(!ui.can_page());
}

#[test]
fn a_saved_chart_takes_the_picture_that_just_arrived() {
    let mut ui: WefaxUi<u8> = WefaxUi::new();
    ui.hold_fresh(Some((7, vec![1, 2, 3])));
    let c = Chart { texture: 1u8, full: None, name: "a.png".into(), size: (1, 1), unix: 5 };
    ui.on_saved("a.png".into(), Some(c));
    assert_eq!(ui.total, 1);
    assert_eq!(ui.gallery.charts()[0].full, Some(7));
    assert_eq!(ui.full_png, Some(("a.png".to_string(), vec![1, 2, 3])));
    assert!(ui.fresh.is_none());
}

#[test]
fn a_fetched_chart_goes_to_its_entry_and_an_empty_answer_marks_it_gone() {
    let mut ui: WefaxUi<u8> = WefaxUi::new();
    ui.insert_entry(Chart { texture: 1u8, full: None, name: "a.png".into(), size: (1, 1), unix: 5 });
    ui.full_asked = Some("a.png".into());
    assert_eq!(ui.on_file("a.png", vec![]), None);
    assert!(ui.full_gone);
    assert!(ui.full_png.is_none());
    ui.full_gone = false;
    assert_eq!(ui.on_file("a.png", vec![4]), None, "not a picture either");
    assert!(ui.full_gone);
    let png = encode_png(&[60u8; 3 * 2 * 2], 2, 2).unwrap();
    assert_eq!(ui.on_file("a.png", png.clone()), Some((vec![60u8; 4], 2, 2)));
    assert_eq!(ui.full_png, Some(("a.png".to_string(), png)));
    ui.attach_full("a.png", 9);
    assert_eq!(ui.gallery.charts()[0].full, Some(9));
    ui.attach_full("elsewhere.png", 3);
    assert_eq!(ui.gallery.charts()[0].full, Some(9));
}

#[test]
fn a_thumbnail_goes_in_only_when_new_and_decodable() {
    let mut ui: WefaxUi<u8> = WefaxUi::new();
    let png = encode_png(&[200u8; 3 * 2 * 1], 2, 1).unwrap();
    let name = "b.png".to_string();
    assert_eq!(ui.thumb_to_add(&name, &png), Some((vec![200u8; 2], 2, 1)));
    assert_eq!(ui.thumb_to_add(&name, b"junk"), None);
    ui.insert_entry(Chart { texture: 1u8, full: None, name: name.clone(), size: (2, 1), unix: 5 });
    assert_eq!(ui.thumb_to_add(&name, &png), None, "already held");
}

#[test]
fn a_raster_is_padded_to_its_size() {
    assert_eq!(gray_raster(&[0, 128, 255, 64], 2, 2), vec![0, 128, 255, 64]);
    assert_eq!(gray_raster(&[1], 2, 2), vec![1, 0, 0, 0]);
    assert_eq!(gray_raster(&[1, 2, 3], 1, 1), vec![1]);
}

#[test]
fn a_grey_png_decodes_to_its_raster() {
    let rgb = vec![128u8; 3 * 2 * 2];
    let png = encode_png(&rgb, 2, 2).unwrap();
    let (gray, w, h) = decode_gray(&png).expect("decodes");
    assert_eq!((w, h), (2, 2));
    assert_eq!(gray, vec![128u8; 4]);
    assert_eq!(decode_gray(b"junk"), None);
}

#[test]
fn a_fresh_panel_is_empty_and_follows_the_newest_rows() {
    let ui: WefaxUi<()> = WefaxUi::default();
    assert!(ui.follow);
    assert!(!ui.has_live());
    assert_eq!(ui.live_size(), (0, 0));
    assert!((ui.gallery.len() == 0));
    assert!(ui.can_page());
    assert!(ui.viewing.is_none());
}

#[test]
fn a_raster_becomes_a_grey_image_of_the_right_size() {
    let img = egui::ColorImage::from_gray([2, 2], &gray_raster(&[0, 128, 255, 64], 2, 2));
    assert_eq!(img.size, [2, 2]);
    assert_eq!(img.pixels[0], egui::Color32::from_gray(0));
    assert_eq!(img.pixels[2], egui::Color32::from_gray(255));
    // A short buffer is padded rather than panicking.
    assert_eq!(gray_raster(&[1], 2, 2).len(), 4);
}

#[test]
fn a_gap_cannot_take_the_chart_past_its_tallest() {
    let mut ui: WefaxUi<()> = WefaxUi::new();
    ui.push_line(1, 0, &[9; 8]);
    ui.push_line(1, 5000, &[9; 8]);
    assert_eq!(ui.live_size(), (8, 1), "a row past the tallest chart is refused, gap and all");
    ui.push_line(1, 4096, &[9; 8]);
    assert_eq!(ui.live_size(), (8, 1));
    ui.push_line(1, 4095, &[9; 8]);
    assert_eq!(ui.live_size(), (8, 4096), "the last row there is room for is taken");
    ui.push_line(1, u16::MAX, &[9; 8]);
    assert_eq!(ui.live_size(), (8, 4096));
}

#[test]
fn the_store_is_listed_once_and_paged_on_request() {
    let mut ui: WefaxUi<()> = WefaxUi::new();
    assert_eq!(ui.first_listing(), Some(0));
    assert!(ui.listed && ui.page_pending);
    assert_eq!(ui.first_listing(), None, "listed once a session");
    ui.on_listing(3, "/charts".to_string(), vec![chart(2)]);
    assert!(!ui.page_pending);
    assert_eq!(ui.older_in_store(), 2);
    assert_eq!(ui.ask_more(), Some(1));
    assert_eq!(ui.ask_more(), None, "one page at a time");
    ui.on_listing(3, "/charts".to_string(), vec![chart(1), chart(0)]);
    assert_eq!(ui.older_in_store(), 0);
    assert_eq!(ui.ask_more(), None, "nothing more in the store");
}
