use sdroxide_ui::voice::{
    voice_buttons, voice_click, voice_name_commit, voice_name_edited, voice_name_shown,
    VoiceButton, VoiceButtons, VoiceCommand, VoiceState,
};

fn idle() -> VoiceState {
    VoiceState { recording: None, playing: None, previewing: None, ptt: false, tuning: false }
}

#[test]
fn an_idle_keyer_offers_everything_on_a_recorded_slot() {
    let b = voice_buttons(&idle(), 3, false);
    assert_eq!(b, VoiceButtons { rec: true, preview: true, transmit: true, erase: true });
    let b = voice_buttons(&idle(), 3, true);
    assert_eq!(b, VoiceButtons { rec: true, preview: false, transmit: false, erase: false });
}

#[test]
fn a_recording_locks_out_the_other_slots_but_can_be_stopped() {
    let st = VoiceState { recording: Some(2), ..idle() };
    let mine = voice_buttons(&st, 2, false);
    assert!(mine.rec && !mine.preview && !mine.transmit && !mine.erase);
    let other = voice_buttons(&st, 5, false);
    assert!(!other.rec && !other.preview && !other.transmit);
    assert_eq!(voice_click(&st, 2, VoiceButton::Rec), VoiceCommand::Record(None));
    assert_eq!(voice_click(&idle(), 2, VoiceButton::Rec), VoiceCommand::Record(Some(2)));
}

#[test]
fn transmitting_is_refused_while_tuning_and_listening_while_keyed() {
    let tune = VoiceState { tuning: true, ..idle() };
    let b = voice_buttons(&tune, 1, false);
    assert!(!b.rec && !b.preview && !b.transmit);
    let keyed = VoiceState { ptt: true, ..idle() };
    let b = voice_buttons(&keyed, 1, false);
    assert!(!b.rec && !b.preview && b.transmit, "a message may go out over a keyed transmitter");
    let playing = VoiceState { playing: Some(1), ptt: true, ..idle() };
    assert!(voice_buttons(&playing, 1, false).transmit, "the running slot can be stopped");
    assert!(!voice_buttons(&playing, 4, false).transmit);
    assert_eq!(voice_click(&playing, 1, VoiceButton::Transmit), VoiceCommand::Play(None));
    assert_eq!(voice_click(&idle(), 1, VoiceButton::Preview), VoiceCommand::Preview(Some(1)));
    assert_eq!(voice_click(&idle(), 7, VoiceButton::Erase), VoiceCommand::Clear(7));
}

#[test]
fn a_name_being_typed_is_shown_and_sent_when_focus_leaves() {
    let mut edit: Option<(usize, String)> = None;
    assert_eq!(voice_name_shown(&edit, "CQ contest", 0), "CQ contest");
    voice_name_edited(&mut edit, 0, "CQ DX".to_string());
    assert_eq!(voice_name_shown(&edit, "CQ contest", 0), "CQ DX", "an echo does not clobber it");
    assert_eq!(voice_name_shown(&edit, "Slot 2", 1), "Slot 2");
    assert_eq!(
        voice_name_commit(&mut edit, 0),
        Some(VoiceCommand::Rename { slot: 0, name: "CQ DX".to_string() })
    );
    assert!(edit.is_none());
    assert_eq!(voice_name_commit(&mut edit, 0), None);
}
