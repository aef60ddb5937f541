//! The antenna-relay settings' read-out: which of the operator's named
//! decoder channels a pair of control words asserts.

use vstd::prelude::*;
use crate::text::{push_str};

verus! {

/// A decoder channel's bit: its 1-based index, clamped to 1..=32, less one.
pub open spec fn channel_bit(index: u8) -> u32 {
    (if index < 1 { 1 } else if index > 32 { 32 } else { index } - 1) as u32
}

/// Whether control word `w` asserts the channel numbered `index`.
pub open spec fn asserts(w: u32, index: u8) -> bool {
    w & (1u32 << channel_bit(index)) != 0
}

/// The names of the channels `w` asserts, in the order they are listed.
pub open spec fn asserted_names(decoders: Seq<(u8, String)>, w: u32) -> Seq<Seq<char>>
    decreases decoders.len(),
{
    if decoders.len() == 0 {
        Seq::empty()
    } else {
        let rest = asserted_names(decoders.drop_last(), w);
        if asserts(w, decoders.last().0) {
            rest.push(decoders.last().1@)
        } else {
            rest
        }
    }
}

/// `parts` joined with `sep` between them.
pub open spec fn joined(parts: Seq<Seq<char>>, sep: Seq<char>) -> Seq<char>
    decreases parts.len(),
{
    if parts.len() == 0 {
        Seq::empty()
    } else if parts.len() == 1 {
        parts[0]
    } else {
        joined(parts.drop_last(), sep) + sep + parts.last()
    }
}

/// The asserted channels' names joined by `, `, or a dash when there are
/// none.
pub open spec fn channel_list(decoders: Seq<(u8, String)>, w: u32) -> Seq<char> {
    let names = asserted_names(decoders, w);
    if names.len() == 0 {
        seq!['—']
    } else {
        joined(names, seq![',', ' '])
    }
}

/// The read-out for a receive and a transmit word: one list when they agree,
/// `RX-list (TX TX-list)` when they differ, so the two directions read at a
/// glance.
pub open spec fn channels_text(decoders: Seq<(u8, String)>, rx: u32, tx: u32) -> Seq<char> {
    if rx == tx {
        channel_list(decoders, rx)
    } else {
        channel_list(decoders, rx) + seq![' ', '(', 'T', 'X', ' '] + channel_list(decoders, tx)
            + seq![')']
    }
}

fn channel_on(w: u32, index: u8) -> (b: bool)
    ensures
        b == asserts(w, index),
{
    let c: u8 = if index < 1 { 1 } else if index > 32 { 32 } else { index };
    let bit: u32 = (c - 1) as u32;
    w & (1u32 << bit) != 0
}

fn channel_list_of(decoders: &[(u8, String)], w: u32) -> (r: String)
    ensures
        r@ == channel_list(decoders@, w),
{
    let mut out = String::new();
    let mut any = false;
    let mut i: usize = 0;
    while i < decoders.len()
        invariant
            i <= decoders@.len(),
            any <==> asserted_names(decoders@.take(i as int), w).len() > 0,
            out@ == joined(asserted_names(decoders@.take(i as int), w), seq![',', ' ']),
        decreases decoders@.len() - i,
    {
        proof {
            assert(decoders@.take(i + 1).drop_last() =~= decoders@.take(i as int));
            assert(decoders@.take(i + 1).last() == decoders@[i as int]);
        }
        let ghost names = asserted_names(decoders@.take(i as int), w);
        if channel_on(w, decoders[i].0) {
            proof {
                reveal_strlit(", ");
                assert(names.push(decoders@[i as int].1@).drop_last() =~= names);
            }
            if any {
                push_str(&mut out, ", ");
            }
            push_str(&mut out, decoders[i].1.as_str());
            any = true;
        }
        i = i + 1;
    }
    assert(decoders@.take(decoders@.len() as int) =~= decoders@);
    if !any {
        let mut dash = String::new();
        proof {
            reveal_strlit("—");
        }
        push_str(&mut dash, "—");
        return dash;
    }
    out
}

/// "SDR antenna, PA" for the channels a pair of words asserts, named the way
/// the operator named them; the transmit list follows in parentheses, after
/// `TX`, when it differs.
pub fn decoder_channels_asserted(decoders: &[(u8, String)], rx: u32, tx: u32) -> (r: String)
    ensures
        r@ == channels_text(decoders@, rx, tx),
        rx == tx ==> r@ == channel_list(decoders@, rx),
        rx != tx ==> r@.len() > 0 && r@.last() == ')' && r@.subrange(0, channel_list(decoders@, rx).len() as int)
            == channel_list(decoders@, rx),
{
    let mut out = channel_list_of(decoders, rx);
    if rx != tx {
        proof {
            reveal_strlit(" (TX ");
            reveal_strlit(")");
        }
        push_str(&mut out, " (TX ");
        let t = channel_list_of(decoders, tx);
        push_str(&mut out, t.as_str());
        push_str(&mut out, ")");
    }
    out
}

/// What the relay tab shows.
#[derive(Debug, Clone, Copy, PartialEq, Eq, Structural)]
pub enum RelayTabView {
    /// A note that the station's switch configuration has not arrived yet.
    Waiting,
    /// The configuration form.
    Form,
}

/// The relay tab waits for the station's configuration before it offers a
/// form: editing a default that the engine's copy would then overwrite — or
/// that would be written over the engine's — is worse than a moment's wait.
pub fn relay_tab_view(seeded: bool) -> (v: RelayTabView)
    ensures
        v == if seeded {
            RelayTabView::Form
        } else {
            RelayTabView::Waiting
        },
{
    if seeded {
        RelayTabView::Form
    } else {
        RelayTabView::Waiting
    }
}

} // verus!
