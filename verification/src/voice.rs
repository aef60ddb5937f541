//! The voice keyer's window: ten recorded messages, each with record,
//! listen, transmit and erase.
//!
//! The engine owns the recordings and the transmitter, so the window keeps no
//! latch of its own: what it enables follows from the engine's state, and
//! every click becomes a command. Only the slot name being typed in is the
//! window's, until it loses focus.

use vstd::prelude::*;

verus! {

/// What the engine reports of the keyer and the transmitter.
#[derive(Debug, Clone, Copy, PartialEq, Eq, Structural)]
pub struct VoiceState {
    /// The slot being recorded into.
    pub recording: Option<u8>,
    /// The slot being transmitted.
    pub playing: Option<u8>,
    /// The slot being listened to locally.
    pub previewing: Option<u8>,
    /// The transmitter is keyed.
    pub ptt: bool,
    /// TUNE holds the transmitter at the tune level.
    pub tuning: bool,
}

/// Which of a slot's buttons can be pressed.
#[derive(Debug, Clone, Copy, PartialEq, Eq, Structural)]
pub struct VoiceButtons {
    /// REC, which starts or stops recording into the slot.
    pub rec: bool,
    /// PLAY, which starts or stops listening to it.
    pub preview: bool,
    /// TX, which starts or stops transmitting it.
    pub transmit: bool,
    /// DEL, which erases it.
    pub erase: bool,
}

/// One of a slot's buttons.
#[derive(Debug, Clone, Copy, PartialEq, Eq, Structural)]
pub enum VoiceButton {
    Rec,
    Preview,
    Transmit,
    Erase,
}

/// What the window asks of the engine.
#[derive(Debug, Clone, PartialEq, Eq)]
pub enum VoiceCommand {
    /// Record into a slot, or stop recording.
    Record(Option<u8>),
    /// Listen to a slot, or stop listening.
    Preview(Option<u8>),
    /// Transmit a slot, or stop transmitting.
    Play(Option<u8>),
    /// Erase a slot.
    Clear(u8),
    /// Rename a slot.
    Rename { slot: u8, name: String },
}

/// Which buttons of `slot` can be pressed; `empty` when nothing is recorded
/// in it.
///
/// REC is refused while anything else runs — another slot recording, any
/// slot playing or being listened to — or while the transmitter is keyed or
/// tuning, which would take the same microphone. PLAY needs something
/// recorded, no recording, the transmitter down and no other slot being
/// listened to; TX the same but may go out while keyed. A slot that is
/// running can always be stopped. DEL needs something recorded and the slot
/// idle.
pub open spec fn buttons_of(st: VoiceState, slot: u8, empty: bool) -> VoiceButtons {
    VoiceButtons {
        rec: !((st.recording is Some && st.recording != Some(slot)) || st.playing is Some
            || st.previewing is Some || st.ptt || st.tuning),
        preview: st.previewing == Some(slot) || (!empty && st.recording is None && !st.ptt
            && !st.tuning && st.previewing is None),
        transmit: st.playing == Some(slot) || (!empty && st.recording is None && !st.tuning
            && st.playing is None),
        erase: !empty && st.recording != Some(slot) && st.playing != Some(slot) && st.previewing
            != Some(slot),
    }
}

/// The command a click on `button` of `slot` sends: each of REC, PLAY and TX
/// toggles — it stops the slot when the slot is the one running, and starts
/// it otherwise — and DEL erases.
pub open spec fn click_of(st: VoiceState, slot: u8, button: VoiceButton) -> VoiceCommand {
    match button {
        VoiceButton::Rec => VoiceCommand::Record(
            if st.recording == Some(slot) {
                None
            } else {
                Some(slot)
            },
        ),
        VoiceButton::Preview => VoiceCommand::Preview(
            if st.previewing == Some(slot) {
                None
            } else {
                Some(slot)
            },
        ),
        VoiceButton::Transmit => VoiceCommand::Play(
            if st.playing == Some(slot) {
                None
            } else {
                Some(slot)
            },
        ),
        VoiceButton::Erase => VoiceCommand::Clear(slot),
    }
}

fn is_slot(x: Option<u8>, slot: u8) -> (b: bool)
    ensures
        b == (x == Some(slot)),
{
    match x {
        Some(s) => s == slot,
        None => false,
    }
}

/// Which buttons of `slot` can be pressed; see [`buttons_of`].
pub fn voice_buttons(st: &VoiceState, slot: u8, empty: bool) -> (b: VoiceButtons)
    ensures
        b == buttons_of(*st, slot, empty),
        (st.recording == Some(slot) || st.playing == Some(slot) || st.previewing == Some(slot))
            ==> !b.erase,
        empty ==> !b.erase,
        st.playing == Some(slot) ==> b.transmit,
        st.previewing == Some(slot) ==> b.preview,
{
    proof {
        lemma_busy_slot_stays_and_stops(*st, slot, empty);
    }
    let is_rec = is_slot(st.recording, slot);
    let is_play = is_slot(st.playing, slot);
    let is_prev = is_slot(st.previewing, slot);
    let busy_elsewhere = (st.recording.is_some() && !is_rec) || st.playing.is_some()
        || st.previewing.is_some() || st.ptt || st.tuning;
    let can_prev = !empty && st.recording.is_none() && !st.ptt && !st.tuning && (is_prev
        || st.previewing.is_none());
    let can_play = !empty && st.recording.is_none() && !st.tuning && (is_play
        || st.playing.is_none());
    VoiceButtons {
        rec: !busy_elsewhere,
        preview: can_prev || is_prev,
        transmit: can_play || is_play,
        erase: !empty && !is_rec && !is_play && !is_prev,
    }
}

/// The command a click sends; see [`click_of`].
pub fn voice_click(st: &VoiceState, slot: u8, button: VoiceButton) -> (cmd: VoiceCommand)
    ensures
        cmd == click_of(*st, slot, button),
        button == VoiceButton::Rec ==> cmd == VoiceCommand::Record(
            if st.recording == Some(slot) {
                None
            } else {
                Some(slot)
            },
        ),
        button == VoiceButton::Preview ==> cmd == VoiceCommand::Preview(
            if st.previewing == Some(slot) {
                None
            } else {
                Some(slot)
            },
        ),
        button == VoiceButton::Transmit ==> cmd == VoiceCommand::Play(
            if st.playing == Some(slot) {
                None
            } else {
                Some(slot)
            },
        ),
        button == VoiceButton::Erase ==> cmd == VoiceCommand::Clear(slot),
{
    proof {
        lemma_each_click_toggles(*st, slot);
    }
    match button {
        VoiceButton::Rec => VoiceCommand::Record(
            if is_slot(st.recording, slot) {
                None
            } else {
                Some(slot)
            },
        ),
        VoiceButton::Preview => VoiceCommand::Preview(
            if is_slot(st.previewing, slot) {
                None
            } else {
                Some(slot)
            },
        ),
        VoiceButton::Transmit => VoiceCommand::Play(
            if is_slot(st.playing, slot) {
                None
            } else {
                Some(slot)
            },
        ),
        VoiceButton::Erase => VoiceCommand::Clear(slot),
    }
}

/// The name to show for row `row`: what is being typed if it is this row,
/// otherwise the engine's name for the slot.
pub fn voice_name_shown<'a>(edit: &'a Option<(usize, String)>, engine: &'a str, row: usize) -> (r:
    &'a str)
    ensures
        r@ == match *edit {
            Some((i, text)) if i == row => text@,
            _ => engine@,
        },
{
    if let Some((i, text)) = edit {
        if *i == row {
            return text.as_str();
        }
    }
    engine
}

/// The name field of row `row` changed to `text`: that row is now the one
/// being typed in.
pub fn voice_name_edited(edit: &mut Option<(usize, String)>, row: usize, text: String)
    ensures
        *final(edit) == Some((row, text)),
{
    *edit = Some((row, text));
}

/// The name field of row `row` lost focus: whatever was being typed is let
/// go of, and when it was this row's it goes to the engine as the slot's new
/// name (the row's number as the byte the command carries).
pub fn voice_name_commit(edit: &mut Option<(usize, String)>, row: usize) -> (cmd: Option<
    VoiceCommand,
>)
    ensures
        *final(edit) is None,
        cmd == match *old(edit) {
            Some((i, name)) if i == row => Some(VoiceCommand::Rename { slot: row as u8, name }),
            _ => None,
        },
{
    match edit.take() {
        Some((i, name)) => if i == row {
            Some(VoiceCommand::Rename { slot: row as u8, name })
        } else {
            None
        },
        None => None,
    }
}

/// The interlock: while a slot records, no other slot can start recording,
/// listening or transmitting; while one transmits or is listened to, no slot
/// can start recording; and nothing can start recording while the
/// transmitter is keyed or tuning.
pub proof fn lemma_one_thing_at_a_time(st: VoiceState, slot: u8, empty: bool)
    ensures
        st.recording is Some && st.recording != Some(slot) ==> {
            let b = buttons_of(st, slot, empty);
            &&& !b.rec
            &&& b.preview ==> st.previewing == Some(slot)
            &&& b.transmit ==> st.playing == Some(slot)
        },
        (st.playing is Some || st.previewing is Some || st.ptt || st.tuning)
            ==> !buttons_of(st, slot, empty).rec,
        st.tuning ==> (buttons_of(st, slot, empty).transmit ==> st.playing == Some(slot)),
        empty ==> !buttons_of(st, slot, empty).erase,
{
}

/// A slot that is recording, being transmitted or being listened to can
/// never be erased, and nothing is erased from an empty slot; a slot being
/// transmitted or listened to can always be stopped by the button that
/// started it.
pub proof fn lemma_busy_slot_stays_and_stops(st: VoiceState, slot: u8, empty: bool)
    ensures
        (st.recording == Some(slot) || st.playing == Some(slot) || st.previewing == Some(slot))
            ==> !buttons_of(st, slot, empty).erase,
        empty ==> !buttons_of(st, slot, empty).erase,
        st.playing == Some(slot) ==> buttons_of(st, slot, empty).transmit,
        st.previewing == Some(slot) ==> buttons_of(st, slot, empty).preview,
{
}

/// Each of REC, PLAY and TX is a toggle: pressed on the slot it is running
/// it stops it, pressed on any other slot it starts that one; DEL erases the
/// slot it is pressed on.
pub proof fn lemma_each_click_toggles(st: VoiceState, slot: u8)
    ensures
        st.recording == Some(slot) ==> click_of(st, slot, VoiceButton::Rec) == VoiceCommand::Record(
            None,
        ),
        st.recording != Some(slot) ==> click_of(st, slot, VoiceButton::Rec) == VoiceCommand::Record(
            Some(slot),
        ),
        st.previewing == Some(slot) ==> click_of(st, slot, VoiceButton::Preview)
            == VoiceCommand::Preview(None),
        st.previewing != Some(slot) ==> click_of(st, slot, VoiceButton::Preview)
            == VoiceCommand::Preview(Some(slot)),
        st.playing == Some(slot) ==> click_of(st, slot, VoiceButton::Transmit) == VoiceCommand::Play(
            None,
        ),
        st.playing != Some(slot) ==> click_of(st, slot, VoiceButton::Transmit) == VoiceCommand::Play(
            Some(slot),
        ),
        click_of(st, slot, VoiceButton::Erase) == VoiceCommand::Clear(slot),
{
}

} // verus!
