use sdroxide_ui::prop::PropMode;
use sdroxide_ui::relay::{decoder_channels_asserted, relay_tab_view, RelayTabView};

fn decoders() -> Vec<(u8, String)> {
    vec![(1, "SDR antenna".to_string()), (2, "PA".to_string()), (5, "Beam".to_string())]
}

#[test]
fn the_asserted_channels_are_named_in_list_order() {
    assert_eq!(decoder_channels_asserted(&decoders(), 0b10011, 0b10011), "SDR antenna, PA, Beam");
    assert_eq!(decoder_channels_asserted(&decoders(), 0b00010, 0b00010), "PA");
}

#[test]
fn no_channel_reads_as_a_dash() {
    assert_eq!(decoder_channels_asserted(&decoders(), 0, 0), "—");
    assert_eq!(decoder_channels_asserted(&[], 0xffff_ffff, 0xffff_ffff), "—");
}

#[test]
fn a_differing_transmit_word_is_listed_after_tx() {
    assert_eq!(decoder_channels_asserted(&decoders(), 0b00001, 0b00011), "SDR antenna (TX SDR antenna, PA)");
    assert_eq!(decoder_channels_asserted(&decoders(), 0, 0b10000), "— (TX Beam)");
}

#[test]
fn an_index_out_of_range_is_clamped_to_the_nearest_channel() {
    let d = vec![(0, "low".to_string()), (40, "high".to_string())];
    assert_eq!(decoder_channels_asserted(&d, 1, 1), "low");
    assert_eq!(decoder_channels_asserted(&d, 1 << 31, 1 << 31), "high");
}

#[test]
fn the_propagation_view_starts_with_every_band() {
    assert_eq!(PropMode::default(), PropMode::AllBands);
    assert_ne!(PropMode::PerBand, PropMode::AllBands);
}

#[test]
fn the_doc_example_reads_rx_then_tx_in_parentheses() {
    let d = vec![(1, "SDR antenna".to_string()), (2, "PA".to_string())];
    assert_eq!(decoder_channels_asserted(&d, 0b01, 0b11), "SDR antenna (TX SDR antenna, PA)");
    assert_eq!(decoder_channels_asserted(&d, 0b11, 0b11), "SDR antenna, PA");
    assert_eq!(decoder_channels_asserted(&d, 0, 0), "—");
}

#[test]
fn the_relay_tab_waits_for_the_stations_configuration() {
    assert_eq!(relay_tab_view(false), RelayTabView::Waiting);
    assert_eq!(relay_tab_view(true), RelayTabView::Form);
}
