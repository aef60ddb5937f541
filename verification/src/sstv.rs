//! SSTV transmit pictures: the banner strip's templates and settings, the
//! per-slot overlay messages the operator edits while the engine holds them,
//! and the image decoding, scaling and encoding the picture goes through.
//!
//! The banner is what the station puts its name on, so its two texts, its two
//! colours and its height come from the station's [`DigiConfig`]. The stock
//! settings compose the callsign at the left and `SDRoxide vX.Y.Z` at the
//! right, white on red fading to black.

use vstd::prelude::*;
use crate::text::{chars_of, push_char, push_str, string_of, to_uppercase, trim, trim_chars, uppercase};

verus! {

/// The version printed for `{version}`.
pub const VERSION: &'static str = "0.1.0";

/// The placeholders [`expand`] knows, with a word on each, for the hint text
/// beside the two fields that take them.
pub const BANNER_PLACEHOLDERS: [(&'static str, &'static str); 3] = [
    ("{call}", "your callsign, in capitals"),
    ("{grid}", "your locator"),
    ("{version}", "the sdroxide version"),
];

/// Whether `s` holds `c` anywhere.
pub open spec fn has_char(s: Seq<char>, c: char) -> bool {
    exists|i: int| 0 <= i < s.len() && s[i] == c
}

/// `i` is the first position of `c` in `s`.
pub open spec fn is_first(s: Seq<char>, c: char, i: int) -> bool {
    &&& 0 <= i < s.len()
    &&& s[i] == c
    &&& forall|j: int| 0 <= j < i ==> s[j] != c
}

/// The first position of `c` in `s` (meaningful when `has_char(s, c)`).
pub open spec fn first_at(s: Seq<char>, c: char) -> int {
    choose|i: int| is_first(s, c, i)
}

proof fn lemma_first_below(s: Seq<char>, c: char, k: int)
    requires
        0 <= k < s.len(),
        s[k] == c,
    ensures
        exists|i: int| is_first(s, c, i),
    decreases k,
{
    if exists|j: int| 0 <= j < k && s[j] == c {
        let j = choose|j: int| 0 <= j < k && s[j] == c;
        lemma_first_below(s, c, j);
    } else {
        assert(is_first(s, c, k));
    }
}

/// A character that occurs in a sequence has a first occurrence.
pub proof fn lemma_first_exists(s: Seq<char>, c: char)
    requires
        has_char(s, c),
    ensures
        is_first(s, c, first_at(s, c)),
{
    let k = choose|i: int| 0 <= i < s.len() && s[i] == c;
    lemma_first_below(s, c, k);
}

/// The first occurrence is the only one that is first.
pub proof fn lemma_first_unique(s: Seq<char>, c: char, i: int)
    requires
        is_first(s, c, i),
    ensures
        first_at(s, c) == i,
{
    lemma_first_exists(s, c);
    let f = first_at(s, c);
    if f < i {
        assert(s[f] != c);
    } else if f > i {
        assert(s[i] != c);
    }
}

/// ASCII lower case of one character.
pub open spec fn lower_char(c: char) -> char {
    if 'A' <= c <= 'Z' {
        ((c as u32) + 32) as char
    } else {
        c
    }
}

/// Whether `name`, ASCII-lowercased, is `word`.
pub open spec fn names(name: Seq<char>, word: Seq<char>) -> bool {
    &&& name.len() == word.len()
    &&& forall|i: int| 0 <= i < name.len() ==> lower_char(#[trigger] name[i]) == word[i]
}

/// What one `{…}` becomes: `whole` is the placeholder with its braces, `name`
/// what stands between them.
pub open spec fn placeholder(
    name: Seq<char>,
    whole: Seq<char>,
    call: Seq<char>,
    grid: Seq<char>,
) -> Seq<char> {
    if names(name, seq!['c', 'a', 'l', 'l']) {
        uppercase(trim(call))
    } else if names(name, seq!['g', 'r', 'i', 'd']) {
        trim(grid)
    } else if names(name, seq!['v', 'e', 'r', 's', 'i', 'o', 'n']) {
        VERSION@
    } else {
        whole
    }
}

/// `template` with its placeholders substituted, scanning left to right:
/// the text up to the first `{` is kept, a `{` with no `}` after it ends the
/// scan with the rest kept as it is, and otherwise the brace pair up to the
/// first `}` is replaced by [`placeholder`] and the scan goes on after it.
pub open spec fn expanded(t: Seq<char>, call: Seq<char>, grid: Seq<char>) -> Seq<char>
    decreases t.len(),
{
    if !has_char(t, '{') {
        t
    } else {
        let o = first_at(t, '{');
        let rest = t.skip(o);
        if !has_char(rest, '}') {
            t
        } else {
            let c = first_at(rest, '}');
            proof {
                lemma_first_exists(t, '{');
                lemma_first_exists(rest, '}');
            }
            t.take(o) + placeholder(rest.subrange(1, c), rest.take(c + 1), call, grid)
                + expanded(rest.skip(c + 1), call, grid)
        }
    }
}

/// Whether `name` is a placeholder [`expand`] fills in.
pub open spec fn known(name: Seq<char>) -> bool {
    names(name, seq!['c', 'a', 'l', 'l']) || names(name, seq!['g', 'r', 'i', 'd']) || names(
        name,
        seq!['v', 'e', 'r', 's', 'i', 'o', 'n'],
    )
}

/// Whether every brace pair the left-to-right scan of `t` meets holds a name
/// [`expand`] does not know.
pub open spec fn only_unknown(t: Seq<char>) -> bool
    decreases t.len(),
{
    if !has_char(t, '{') {
        true
    } else {
        let o = first_at(t, '{');
        let rest = t.skip(o);
        if !has_char(rest, '}') {
            true
        } else {
            let c = first_at(rest, '}');
            proof {
                lemma_first_exists(t, '{');
                lemma_first_exists(rest, '}');
            }
            !known(rest.subrange(1, c)) && only_unknown(rest.skip(c + 1))
        }
    }
}

/// The template around the placeholders comes out as it was typed, and an
/// unrecognised `{…}` is copied through untouched: a template whose brace
/// pairs are all unknown expands to itself, whatever the call and grid.
pub proof fn lemma_unknown_placeholders_survive(t: Seq<char>, call: Seq<char>, grid: Seq<char>)
    requires
        only_unknown(t),
    ensures
        expanded(t, call, grid) == t,
    decreases t.len(),
{
    if has_char(t, '{') {
        lemma_first_exists(t, '{');
        let o = first_at(t, '{');
        let rest = t.skip(o);
        if has_char(rest, '}') {
            lemma_first_exists(rest, '}');
            let c = first_at(rest, '}');
            lemma_unknown_placeholders_survive(rest.skip(c + 1), call, grid);
            assert(t =~= t.take(o) + rest.take(c + 1) + rest.skip(c + 1));
        }
    }
}

} // verus!

verus! {

/// The first position of `c` at or after `from`, absolute.
fn find_from(t: &Vec<char>, from: usize, c: char) -> (r: Option<usize>)
    requires
        from <= t@.len(),
    ensures
        match r {
            None => !has_char(t@.skip(from as int), c),
            Some(i) => from <= i < t@.len() && is_first(t@.skip(from as int), c, i - from),
        },
{
    let mut i: usize = from;
    while i < t.len()
        invariant
            from <= i <= t@.len(),
            forall|j: int| from <= j < i ==> t@[j] != c,
        decreases t@.len() - i,
    {
        if t[i] == c {
            proof {
                let s = t@.skip(from as int);
                assert forall|j: int| 0 <= j < i - from implies s[j] != c by {
                    assert(s[j] == t@[j + from]);
                }
            }
            return Some(i);
        }
        i = i + 1;
    }
    proof {
        let s = t@.skip(from as int);
        assert forall|j: int| 0 <= j < s.len() implies s[j] != c by {
            assert(s[j] == t@[j + from]);
        }
    }
    None
}

/// Append `t[from..to]`.
fn push_range(out: &mut String, t: &Vec<char>, from: usize, to: usize)
    requires
        from <= to <= t@.len(),
    ensures
        final(out)@ == old(out)@ + t@.subrange(from as int, to as int),
{
    let mut i: usize = from;
    while i < to
        invariant
            from <= i <= to <= t@.len(),
            out@ == old(out)@ + t@.subrange(from as int, i as int),
        decreases to - i,
    {
        push_char(out, t[i]);
        i = i + 1;
        assert(out@ =~= old(out)@ + t@.subrange(from as int, i as int));
    }
}

/// Whether `t[from..to]`, ASCII-lowercased, is `word`.
fn names_at(t: &Vec<char>, from: usize, to: usize, word: &Vec<char>) -> (b: bool)
    requires
        from <= to <= t@.len(),
    ensures
        b == names(t@.subrange(from as int, to as int), word@),
{
    let ghost name = t@.subrange(from as int, to as int);
    if to - from != word.len() {
        return false;
    }
    let mut k: usize = 0;
    while k < word.len()
        invariant
            from <= to <= t@.len(),
            to - from == word@.len(),
            name == t@.subrange(from as int, to as int),
            k <= word@.len(),
            forall|i: int| 0 <= i < k ==> lower_char(#[trigger] name[i]) == word@[i],
        decreases word@.len() - k,
    {
        let c = t[from + k];
        let l: char = if 'A' <= c && c <= 'Z' {
            let u: u8 = (c as u8) + 32;
            u as char
        } else {
            c
        };
        assert(name[k as int] == c);
        if l != word[k] {
            return false;
        }
        k = k + 1;
    }
    true
}

} // verus!

verus! {

/// One step of [`expanded`] from the front of `t[pos..]`, the brace pair at
/// `o..=cl`.
proof fn lemma_expand_step(t: Seq<char>, pos: int, o: int, cl: int, call: Seq<char>, grid: Seq<char>)
    requires
        0 <= pos <= o < cl < t.len(),
        is_first(t.skip(pos), '{', o - pos),
        is_first(t.skip(o), '}', cl - o),
    ensures
        expanded(t.skip(pos), call, grid) == t.subrange(pos, o) + placeholder(
            t.subrange(o + 1, cl),
            t.subrange(o, cl + 1),
            call,
            grid,
        ) + expanded(t.skip(cl + 1), call, grid),
{
    let s = t.skip(pos);
    assert(has_char(s, '{'));
    lemma_first_unique(s, '{', o - pos);
    let rest = s.skip(o - pos);
    assert(rest =~= t.skip(o));
    assert(has_char(rest, '}'));
    lemma_first_unique(rest, '}', cl - o);
    assert(s.take(o - pos) =~= t.subrange(pos, o));
    assert(rest.subrange(1, cl - o) =~= t.subrange(o + 1, cl));
    assert(rest.take(cl - o + 1) =~= t.subrange(o, cl + 1));
    assert(rest.skip(cl - o + 1) =~= t.skip(cl + 1));
}

/// Substitute the banner placeholders in `template`.
///
/// `{call}` is uppercased — a callsign belongs in capitals on the air — but
/// the template around it is left as the operator typed it, which is what
/// stops `SDRoxide` becoming `SDROXIDE`. Placeholder names are matched without
/// regard to ASCII case. An unrecognised `{…}` is copied through untouched so
/// a typo is visible in the preview rather than silently printing nothing.
pub fn expand(template: &str, call: &str, grid: &str) -> (r: String)
    ensures
        r@ == expanded(template@, call@, grid@),
{
    let t = chars_of(template);
    let call_trimmed = string_of(&trim_chars(call));
    let call_up = to_uppercase(call_trimmed.as_str());
    let grid_trimmed = string_of(&trim_chars(grid));
    let w_call: Vec<char> = vec!['c', 'a', 'l', 'l'];
    let w_grid: Vec<char> = vec!['g', 'r', 'i', 'd'];
    let w_version: Vec<char> = vec!['v', 'e', 'r', 's', 'i', 'o', 'n'];
    let ghost c = call@;
    let ghost g = grid@;
    let mut out = String::new();
    let mut pos: usize = 0;
    let tl: usize = t.len();
    assert(t@.skip(0) =~= t@);
    assert(out@ + expanded(t@, c, g) =~= expanded(t@, c, g));
    loop
        invariant
            tl == t@.len(),
            t@ == template@,
            c == call@,
            g == grid@,
            call_up@ == uppercase(trim(c)),
            grid_trimmed@ == trim(g),
            w_call@ == seq!['c', 'a', 'l', 'l'],
            w_grid@ == seq!['g', 'r', 'i', 'd'],
            w_version@ == seq!['v', 'e', 'r', 's', 'i', 'o', 'n'],
            pos <= t@.len(),
            out@ + expanded(t@.skip(pos as int), c, g) == expanded(t@, c, g),
        decreases t@.len() - pos,
    {
        let ghost before = out@;
        match find_from(&t, pos, '{') {
            None => {
                push_range(&mut out, &t, pos, t.len());
                assert(t@.subrange(pos as int, t@.len() as int) =~= t@.skip(pos as int));
                assert(t@.skip(0) =~= t@);
                return out;
            },
            Some(o) => {
                match find_from(&t, o, '}') {
                    None => {
                        proof {
                            let s = t@.skip(pos as int);
                            assert(has_char(s, '{'));
                            lemma_first_unique(s, '{', o - pos);
                            assert(s.skip(o - pos) =~= t@.skip(o as int));
                        }
                        push_range(&mut out, &t, pos, t.len());
                        assert(t@.subrange(pos as int, t@.len() as int) =~= t@.skip(pos as int));
                        assert(t@.skip(0) =~= t@);
                        return out;
                    },
                    Some(cl) => {
                        proof {
                            assert(t@.skip(o as int)[0] == '{');
                            lemma_expand_step(t@, pos as int, o as int, cl as int, c, g);
                        }
                        push_range(&mut out, &t, pos, o);
                        if names_at(&t, o + 1, cl, &w_call) {
                            push_str(&mut out, call_up.as_str());
                        } else if names_at(&t, o + 1, cl, &w_grid) {
                            push_str(&mut out, grid_trimmed.as_str());
                        } else if names_at(&t, o + 1, cl, &w_version) {
                            push_str(&mut out, VERSION);
                        } else {
                            push_range(&mut out, &t, o, cl + 1);
                        }
                        assert(out@ + expanded(t@.skip(cl + 1), c, g) =~= before + expanded(
                            t@.skip(pos as int),
                            c,
                            g,
                        ));
                        pos = cl + 1;
                    },
                }
            },
        }
    }
}

} // verus!

verus! {

/// The look of the transmitted picture's text, as the station configures it.
#[derive(Clone, Debug, PartialEq)]
pub struct SstvStyle {
    /// Whether the banner strip fades to [`Self::banner_fill2`] rather than
    /// to black.
    pub banner_gradient: bool,
    pub banner_fill2: [u8; 3],
    /// Whether the banner text fades to [`Self::banner_ink2`] across the strip.
    pub banner_ink_gradient: bool,
    pub banner_ink2: [u8; 3],
    /// A horizontal rainbow over all text, whatever the colours say.
    pub rainbow_text: bool,
    /// Whether the banner text is outlined, and in what.
    pub banner_outline: bool,
    pub banner_outline_ink: [u8; 3],
    /// Colour of the message overlay.
    pub message_ink: [u8; 3],
    /// Whether the message overlay is outlined, and in what.
    pub message_outline: bool,
    pub message_outline_ink: [u8; 3],
}

impl Default for SstvStyle {
    fn default() -> (r: Self)
        ensures
            !r.banner_gradient,
            r.banner_fill2 == [0u8, 0u8, 0u8],
            !r.banner_ink_gradient,
            r.banner_ink2 == [255u8, 255u8, 255u8],
            !r.rainbow_text,
            !r.banner_outline,
            r.banner_outline_ink == [0u8, 0u8, 0u8],
            r.message_ink == [255u8, 255u8, 255u8],
            r.message_outline,
            r.message_outline_ink == [0u8, 0u8, 0u8],
    {
        SstvStyle {
            banner_gradient: false,
            banner_fill2: [0, 0, 0],
            banner_ink_gradient: false,
            banner_ink2: [255, 255, 255],
            rainbow_text: false,
            banner_outline: false,
            banner_outline_ink: [0, 0, 0],
            message_ink: [255, 255, 255],
            message_outline: true,
            message_outline_ink: [0, 0, 0],
        }
    }
}

/// The parts of the station's digital-mode configuration the banner is
/// built from.
#[derive(Clone, Debug, PartialEq)]
pub struct DigiConfig {
    /// The operator's callsign and locator, for `{call}` and `{grid}`.
    pub my_call: String,
    pub my_grid: String,
    /// Whether a banner is drawn at all.
    pub sstv_banner: bool,
    /// Height of the strip in picture pixels.
    pub sstv_banner_height: u16,
    /// The templates printed at the left and right ends.
    pub sstv_banner_left: String,
    pub sstv_banner_right: String,
    /// Strip colour at the top, and the text colour.
    pub sstv_banner_fill: [u8; 3],
    pub sstv_banner_ink: [u8; 3],
    pub sstv_style: SstvStyle,
}

impl Default for DigiConfig {
    fn default() -> (r: Self)
        ensures
            r.my_call@ == Seq::<char>::empty(),
            r.my_grid@ == Seq::<char>::empty(),
            r.sstv_banner,
            r.sstv_banner_height == 16,
            r.sstv_banner_left@ == "{call}"@,
            r.sstv_banner_right@ == "SDRoxide v{version}"@,
            r.sstv_banner_fill == [170u8, 0u8, 0u8],
            r.sstv_banner_ink == [255u8, 255u8, 255u8],
    {
        let mut left = String::new();
        push_str(&mut left, "{call}");
        let mut right = String::new();
        push_str(&mut right, "SDRoxide v{version}");
        DigiConfig {
            my_call: String::new(),
            my_grid: String::new(),
            sstv_banner: true,
            sstv_banner_height: 16,
            sstv_banner_left: left,
            sstv_banner_right: right,
            sstv_banner_fill: [170, 0, 0],
            sstv_banner_ink: [255, 255, 255],
            sstv_style: SstvStyle::default(),
        }
    }
}

/// The banner strip drawn across the top of a transmitted picture, with the
/// operator's templates already resolved against the station identity.
#[derive(Clone, Debug, Default, PartialEq)]
pub struct Banner {
    /// Height of the strip in picture pixels. The text is sized from it.
    pub height: u16,
    /// Text printed at the left end.
    pub left: String,
    /// Text printed at the right end, right-aligned.
    pub right: String,
    /// Colour at the top of the strip.
    pub fill: [u8; 3],
    /// The colour the strip fades to at its bottom; `None` fades to black.
    pub fill2: Option<[u8; 3]>,
    /// Colour both texts are printed in.
    pub ink: [u8; 3],
    /// The colour the text fades to across the strip; `None` is one colour.
    pub ink2: Option<[u8; 3]>,
    /// Override both texts with a horizontal rainbow.
    pub rainbow: bool,
    /// Colour the texts are outlined in; `None` prints them plain.
    pub outline: Option<[u8; 3]>,
}

/// `Some(v)` when `on`, otherwise `None`.
pub open spec fn colour_if(on: bool, v: [u8; 3]) -> Option<[u8; 3]> {
    if on {
        Some(v)
    } else {
        None
    }
}

/// The banner `cfg` describes, when it is switched on.
pub open spec fn banner_of(cfg: DigiConfig, b: Banner) -> bool {
    &&& b.height == if cfg.sstv_banner_height == 0 { 1 } else { cfg.sstv_banner_height }
    &&& b.left@ == expanded(cfg.sstv_banner_left@, cfg.my_call@, cfg.my_grid@)
    &&& b.right@ == expanded(cfg.sstv_banner_right@, cfg.my_call@, cfg.my_grid@)
    &&& b.fill == cfg.sstv_banner_fill
    &&& b.fill2 == colour_if(cfg.sstv_style.banner_gradient, cfg.sstv_style.banner_fill2)
    &&& b.ink == cfg.sstv_banner_ink
    &&& b.ink2 == colour_if(cfg.sstv_style.banner_ink_gradient, cfg.sstv_style.banner_ink2)
    &&& b.rainbow == cfg.sstv_style.rainbow_text
    &&& b.outline == colour_if(cfg.sstv_style.banner_outline, cfg.sstv_style.banner_outline_ink)
}

/// The banner prints its texts in the configured ink and fills its strip
/// with the configured fill, each independent of the other: whatever banner
/// a config describes has exactly the config's ink, fill, second colours
/// (present exactly when switched on) and rainbow switch, and is at least one
/// pixel tall, the configured height when that is not zero.
pub proof fn lemma_banner_takes_its_colours(cfg: DigiConfig)
    ensures
        forall|b: Banner| #[trigger]
            banner_of(cfg, b) ==> {
                &&& b.ink == cfg.sstv_banner_ink
                &&& b.fill == cfg.sstv_banner_fill
                &&& b.height >= 1
                &&& cfg.sstv_banner_height > 0 ==> b.height == cfg.sstv_banner_height
                &&& b.rainbow == cfg.sstv_style.rainbow_text
                &&& (b.fill2 is Some <==> cfg.sstv_style.banner_gradient)
                &&& (b.ink2 is Some <==> cfg.sstv_style.banner_ink_gradient)
                &&& (b.outline is Some <==> cfg.sstv_style.banner_outline)
                &&& b.fill2 matches Some(c) ==> c == cfg.sstv_style.banner_fill2
                &&& b.ink2 matches Some(c) ==> c == cfg.sstv_style.banner_ink2
                &&& b.outline matches Some(c) ==> c == cfg.sstv_style.banner_outline_ink
            },
{
}

fn when_on(on: bool, v: [u8; 3]) -> (r: Option<[u8; 3]>)
    ensures
        r == colour_if(on, v),
{
    if on {
        Some(v)
    } else {
        None
    }
}

impl Banner {
    /// The banner the station's digital-mode config asks for, or `None` when
    /// the operator has switched it off.
    ///
    /// A banner whose two texts both resolve to nothing still draws its
    /// strip, and a zero height is raised to one pixel, the smallest honest
    /// strip.
    pub fn from_config(cfg: &DigiConfig) -> (r: Option<Banner>)
        ensures
            r is None <==> !cfg.sstv_banner,
            r matches Some(b) ==> banner_of(*cfg, b),
            r matches Some(b) ==> b.ink == cfg.sstv_banner_ink && b.fill == cfg.sstv_banner_fill,
            r matches Some(b) ==> b.height >= 1 && (cfg.sstv_banner_height > 0 ==> b.height
                == cfg.sstv_banner_height),
            r matches Some(b) ==> b.rainbow == cfg.sstv_style.rainbow_text,
            r matches Some(b) ==> (b.fill2 is Some <==> cfg.sstv_style.banner_gradient) && (
            b.ink2 is Some <==> cfg.sstv_style.banner_ink_gradient) && (b.outline is Some
                <==> cfg.sstv_style.banner_outline),
            r matches Some(b) ==> (b.fill2 matches Some(c) ==> c == cfg.sstv_style.banner_fill2) && (
            b.ink2 matches Some(c) ==> c == cfg.sstv_style.banner_ink2) && (b.outline matches Some(
                c,
            ) ==> c == cfg.sstv_style.banner_outline_ink),
    {
        proof {
            lemma_banner_takes_its_colours(*cfg);
        }
        if !cfg.sstv_banner {
            return None;
        }
        let st = &cfg.sstv_style;
        Some(
            Banner {
                height: if cfg.sstv_banner_height == 0 { 1 } else { cfg.sstv_banner_height },
                left: expand(cfg.sstv_banner_left.as_str(), cfg.my_call.as_str(), cfg.my_grid.as_str()),
                right: expand(cfg.sstv_banner_right.as_str(), cfg.my_call.as_str(), cfg.my_grid.as_str()),
                fill: cfg.sstv_banner_fill,
                fill2: when_on(st.banner_gradient, st.banner_fill2),
                ink: cfg.sstv_banner_ink,
                ink2: when_on(st.banner_ink_gradient, st.banner_ink2),
                rainbow: st.rainbow_text,
                outline: when_on(st.banner_outline, st.banner_outline_ink),
            },
        )
    }
}

} // verus!

verus! {

/// One transmit slot as the engine reports it.
#[derive(Clone, Debug, Default, PartialEq)]
pub struct ImageSlotInfo {
    /// The overlay message stored for the slot.
    pub message: String,
}

/// The engine's transmit slots.
#[derive(Clone, Debug, Default, PartialEq)]
pub struct ImagePresets {
    pub slots: Vec<ImageSlotInfo>,
}

/// What the panel sends the engine.
#[derive(Clone, Debug, PartialEq)]
pub enum Command {
    /// Store `message` as slot `slot`'s overlay text.
    ImageSetMessage { slot: u8, message: String },
}

/// The message the engine holds for `slot`, if it has such a slot.
pub open spec fn stored(p: ImagePresets, slot: int) -> Option<Seq<char>> {
    if 0 <= slot < p.slots@.len() {
        Some(p.slots@[slot].message@)
    } else {
        None
    }
}

/// The text to show for `slot`: what is being typed if it is this slot,
/// otherwise what the engine says, and nothing for a slot it never named.
pub open spec fn shown(edit: Option<(usize, String)>, p: ImagePresets, slot: int) -> Seq<char> {
    match edit {
        Some((i, text)) if i == slot => text@,
        _ => match stored(p, slot) {
            Some(m) => m,
            None => Seq::empty(),
        },
    }
}

/// What releasing the claim `edit` sends: nothing when nothing was claimed or
/// the text is what the engine already has, otherwise the new text for the
/// slot (its number as the byte the command carries).
pub open spec fn commit_of(edit: Option<(usize, String)>, p: ImagePresets) -> Option<Command> {
    match edit {
        None => None,
        Some((slot, text)) => if stored(p, slot as int) == Some(text@) {
            None
        } else {
            Some(Command::ImageSetMessage { slot: slot as u8, message: text })
        },
    }
}

/// The text to show for `slot`: what is being typed if it is this slot,
/// otherwise what the engine says.
pub fn message_shown<'a>(
    edit: &'a Option<(usize, String)>,
    presets: &'a ImagePresets,
    slot: usize,
) -> (r: &'a str)
    ensures
        r@ == shown(*edit, *presets, slot as int),
        (*edit matches Some((i, t)) && i == slot) ==> (edit->0).1@ == r@,
        !(*edit matches Some((i, t)) && i == slot) && slot < presets.slots@.len() ==> r@
            == presets.slots@[slot as int].message@,
        !(*edit matches Some((i, t)) && i == slot) && slot >= presets.slots@.len() ==> r@.len()
            == 0,
{
    if let Some((i, text)) = edit {
        if *i == slot {
            return text.as_str();
        }
    }
    if slot < presets.slots.len() {
        presets.slots[slot].message.as_str()
    } else {
        proof {
            reveal_strlit("");
        }
        ""
    }
}

/// Give a claimed slot back to the engine, returning the command to send when
/// the text actually changed.
///
/// `None` when nothing was claimed or nothing was edited, so an unfocused
/// click does not spray writes at the engine.
pub fn commit_message(edit: &mut Option<(usize, String)>, presets: &ImagePresets) -> (cmd: Option<
    Command,
>)
    ensures
        *final(edit) is None,
        cmd == commit_of(*old(edit), *presets),
        old(edit).is_none() ==> cmd is None,
        (*old(edit) matches Some((slot, text)) && slot < presets.slots@.len()
            && presets.slots@[slot as int].message@ == text@) ==> cmd is None,
        (*old(edit) matches Some((slot, text)) && !(slot < presets.slots@.len()
            && presets.slots@[slot as int].message@ == text@)) ==> cmd == Some(
            Command::ImageSetMessage { slot: (old(edit)->0).0 as u8, message: (old(edit)->0).1 },
        ),
{
    match edit.take() {
        None => None,
        Some((slot, text)) => {
            let same = slot < presets.slots.len() && presets.slots[slot].message == text;
            if same {
                None
            } else {
                Some(Command::ImageSetMessage { slot: slot as u8, message: text })
            }
        },
    }
}

/// Exactly one slot is the operator's at a time: the one in hand shows what
/// is being typed whatever the engine echoes back, and every other slot shows
/// the engine's latest word.
pub proof fn lemma_one_slot_in_hand(
    slot: usize,
    text: String,
    before: ImagePresets,
    after: ImagePresets,
    other: int,
)
    requires
        other != slot,
    ensures
        shown(Some((slot, text)), after, slot as int) == shown(Some((slot, text)), before, slot as int),
        shown(Some((slot, text)), after, other) == shown(None, after, other),
{
}

/// Claiming a slot the engine has and letting go of it untouched sends the
/// engine nothing.
pub proof fn lemma_untouched_claim_sends_nothing(p: ImagePresets, slot: usize, text: String)
    requires
        slot < p.slots@.len(),
        text@ == shown(None, p, slot as int),
    ensures
        commit_of(Some((slot, text)), p) is None,
{
}

/// Claim `slot` for editing, committing whatever was claimed before. The
/// slot already in hand is left as it is.
pub fn claim_message(edit: &mut Option<(usize, String)>, presets: &ImagePresets, slot: usize) -> (cmd:
    Option<Command>)
    ensures
        (*old(edit) matches Some((i, _)) && i == slot) ==> cmd is None && *final(edit) == *old(edit),
        !(*old(edit) matches Some((i, _)) && i == slot) ==> {
            &&& cmd == commit_of(*old(edit), *presets)
            &&& *final(edit) matches Some((s, t)) && s == slot && t@ == shown(None, *presets, slot as int)
        },
{
    if let Some((i, _)) = edit {
        if *i == slot {
            return None;
        }
    }
    let cmd = commit_message(edit, presets);
    let text = if slot < presets.slots.len() {
        presets.slots[slot].message.clone()
    } else {
        String::new()
    };
    *edit = Some((slot, text));
    cmd
}

/// Whether `(x, y)` lies inside a `w` × `h` picture, with the bounds taken as
/// `i32` the way the pixel writer compares them.
pub open spec fn on_picture(w: usize, h: usize, x: i32, y: i32) -> bool {
    x >= 0 && y >= 0 && x < w as i32 && y < h as i32
}

/// Set one pixel of an interleaved RGB picture, ignoring any outside it.
pub fn put(img: &mut [u8], w: usize, h: usize, x: i32, y: i32, r: u8, g: u8, b: u8)
    requires
        on_picture(w, h, x, y) ==> (y as int * w as int + x as int) * 3 + 2 < old(img)@.len(),
    ensures
        !on_picture(w, h, x, y) ==> final(img)@ == old(img)@,
        on_picture(w, h, x, y) ==> final(img)@ == old(img)@.update(
            (y as int * w as int + x as int) * 3,
            r,
        ).update((y as int * w as int + x as int) * 3 + 1, g).update(
            (y as int * w as int + x as int) * 3 + 2,
            b,
        ),
{
    if x < 0 || y < 0 || x >= w as i32 || y >= h as i32 {
        return;
    }
    let n: usize = img.len();
    assert(0 <= y as int * w as int) by (nonlinear_arith)
        requires
            y >= 0,
    ;
    assert((y as usize) as int == y as int);
    assert((x as usize) as int == x as int);
    assert((y as usize) as int * w as int <= n);
    let i: usize = (y as usize * w + x as usize) * 3;
    img[i] = r;
    img[i + 1] = g;
    img[i + 2] = b;
}

} // verus!

verus! {

/// What `image::load_from_memory` followed by `DynamicImage::to_rgb8` makes
/// of a file's bytes: the interleaved RGB pixels and the width and height, or
/// nothing when the bytes do not decode.
pub uninterp spec fn rgb_decoded(bytes: Seq<u8>) -> Option<(Seq<u8>, u32, u32)>;

/// What `image::load_from_memory`, then `DynamicImage::resize(max, max,
/// FilterType::Triangle)` in the picture's own colour type, then `to_rgb8`
/// make of a file's bytes: the interleaved RGB pixels and the width and
/// height, or nothing when the bytes do not decode.
pub uninterp spec fn rgb_decoded_within(bytes: Seq<u8>, max: u32) -> Option<(Seq<u8>, u32, u32)>;

/// What `DynamicImage::resize_to_fill(nw, nh, FilterType::Triangle)`
/// followed by `to_rgb8` makes of a `w` × `h` RGB picture: its pixels.
pub uninterp spec fn rgb_filled(px: Seq<u8>, w: u32, h: u32, nw: u32, nh: u32) -> Seq<u8>;

/// What `DynamicImage::write_to(.., ImageFormat::Png)` writes for a `w` × `h`
/// RGB picture, or nothing when the encoder fails.
pub uninterp spec fn png_encoded(px: Seq<u8>, w: u32, h: u32) -> Option<Seq<u8>>;

/// `image::load_from_memory` and `DynamicImage::to_rgb8`: the decoded
/// picture, as [`rgb_decoded`] names it, or `None` on a decoding error. The
/// buffer is the decoder's own, sized to the picture: three bytes a pixel.
#[verifier::external_body]
fn load_rgb8(bytes: &[u8]) -> (r: Option<(Vec<u8>, u32, u32)>)
    ensures
        match r {
            None => rgb_decoded(bytes@) is None,
            Some((px, w, h)) => rgb_decoded(bytes@) == Some((px@, w, h)) && px@.len() == 3 * w * h,
        },
{
    match image::load_from_memory(bytes) {
        Ok(img) => {
            let rgb = img.to_rgb8();
            let (w, h) = (rgb.width(), rgb.height());
            Some((rgb.into_raw(), w, h))
        },
        Err(_) => None,
    }
}

/// `image::load_from_memory`, `DynamicImage::resize` to fit `max` × `max`
/// with the triangle filter, and `to_rgb8`: the scaled picture, as
/// [`rgb_decoded_within`] names it. The bytes decode here exactly when
/// [`load_rgb8`] decodes them — both start with the same
/// `load_from_memory`, and scaling and conversion cannot fail.
#[verifier::external_body]
fn load_rgb8_within(bytes: &[u8], max: u32) -> (r: Option<(Vec<u8>, u32, u32)>)
    ensures
        r is None <==> rgb_decoded(bytes@) is None,
        match r {
            None => rgb_decoded_within(bytes@, max) is None,
            Some((px, w, h)) => rgb_decoded_within(bytes@, max) == Some((px@, w, h)),
        },
{
    match image::load_from_memory(bytes) {
        Ok(img) => {
            let rgb = img.resize(max, max, image::imageops::FilterType::Triangle).to_rgb8();
            let (w, h) = (rgb.width(), rgb.height());
            Some((rgb.into_raw(), w, h))
        },
        Err(_) => None,
    }
}

/// `DynamicImage::resize_to_fill` with the triangle filter, on an RGB
/// picture whose buffer holds its `w` × `h` pixels, as [`rgb_filled`] names it.
#[verifier::external_body]
fn fill_rgb8(px: Vec<u8>, w: u32, h: u32, nw: u32, nh: u32) -> (r: Vec<u8>)
    requires
        px@.len() >= 3 * w * h,
        w > 0,
        h > 0,
    ensures
        r@ == rgb_filled(px@, w, h, nw, nh),
{
    let src = image::RgbImage::from_raw(w, h, px).unwrap_or_default();
    image::DynamicImage::ImageRgb8(src)
        .resize_to_fill(nw, nh, image::imageops::FilterType::Triangle)
        .to_rgb8()
        .into_raw()
}

/// `DynamicImage::write_to` as PNG, on an RGB picture whose buffer holds
/// exactly its `w` × `h` pixels (the PNG encoder asserts that length), as
/// [`png_encoded`] names it; `None` on an encoder error.
#[verifier::external_body]
fn write_png_rgb8(px: Vec<u8>, w: u32, h: u32) -> (r: Option<Vec<u8>>)
    requires
        px@.len() == 3 * w * h,
    ensures
        match r {
            None => png_encoded(px@, w, h) is None,
            Some(b) => png_encoded(px@, w, h) == Some(b@),
        },
{
    let img = image::RgbImage::from_raw(w, h, px).unwrap_or_default();
    let mut buf = std::io::Cursor::new(Vec::new());
    match image::DynamicImage::ImageRgb8(img).write_to(&mut buf, image::ImageFormat::Png) {
        Ok(()) => Some(buf.into_inner()),
        Err(_) => None,
    }
}

/// A copy of a byte slice.
fn copy_bytes(b: &[u8]) -> (v: Vec<u8>)
    ensures
        v@ == b@,
{
    let mut v: Vec<u8> = Vec::new();
    let mut i: usize = 0;
    while i < b.len()
        invariant
            i <= b@.len(),
            v@ == b@.take(i as int),
        decreases b@.len() - i,
    {
        v.push(b[i]);
        i = i + 1;
        assert(v@ =~= b@.take(i as int));
    }
    assert(b@.take(b@.len() as int) =~= b@);
    v
}

/// Decode arbitrary image file bytes (PNG/JPEG) to interleaved RGB and its
/// size, the size cut to 16 bits.
pub fn decode_image(bytes: &[u8]) -> (r: Option<(Vec<u8>, u16, u16)>)
    ensures
        match rgb_decoded(bytes@) {
            None => r is None,
            Some((px, w, h)) => r matches Some((p, w2, h2)) && p@ == px && w2 == w as u16 && h2
                == h as u16,
        },
{
    match load_rgb8(bytes) {
        None => None,
        Some((px, w, h)) => Some((px, w as u16, h as u16)),
    }
}

/// Decode an image file and, when either side exceeds `max`, scale it down
/// to fit within `max` × `max` keeping its aspect ratio; interleaved RGB and
/// its size, the size cut to 16 bits. The scaling works on the picture as it
/// was decoded, before it is brought to 8-bit RGB.
pub fn load_source_bounded(bytes: &[u8], max: u16) -> (r: Option<(Vec<u8>, u16, u16)>)
    ensures
        match rgb_decoded(bytes@) {
            None => r is None,
            Some((px, w, h)) => if w > max || h > max {
                rgb_decoded_within(bytes@, max as u32) matches Some((q, nw, nh)) && r matches Some(
                    (p, w2, h2),
                ) && p@ == q && w2 == nw as u16 && h2 == nh as u16
            } else {
                r matches Some((p, w2, h2)) && p@ == px && w2 == w as u16 && h2 == h as u16
            },
        },
{
    match load_rgb8(bytes) {
        None => None,
        Some((px, w, h)) => {
            if w > max as u32 || h > max as u32 {
                match load_rgb8_within(bytes, max as u32) {
                    Some((q, nw, nh)) => Some((q, nw as u16, nh as u16)),
                    None => None,
                }
            } else {
                Some((px, w as u16, h as u16))
            }
        },
    }
}

/// Encode interleaved RGB to PNG; `None` when the buffer is too small for a
/// `w` × `h` picture or the encoder fails. A buffer longer than the picture
/// is not taken: the encoder insists on the exact length.
pub fn encode_png(rgb: &[u8], w: u16, h: u16) -> (r: Option<Vec<u8>>)
    requires
        rgb@.len() <= 3 * w * h,
    ensures
        rgb@.len() < 3 * w * h ==> r is None,
        rgb@.len() >= 3 * w * h ==> match png_encoded(rgb@, w as u32, h as u32) {
            None => r is None,
            Some(b) => r matches Some(v) && v@ == b,
        },
{
    assert(3 * (w as u64) * (h as u64) <= 3 * 65535 * 65535) by (nonlinear_arith)
        requires
            w <= 65535,
            h <= 65535,
    ;
    let need: u64 = 3 * (w as u64) * (h as u64);
    if (rgb.len() as u64) < need {
        return None;
    }
    write_png_rgb8(copy_bytes(rgb), w as u32, h as u32)
}

/// Crop-and-scale a source picture to exactly `w` × `h`, filling the frame
/// (centre-crop, preserving aspect ratio); a black frame when the source
/// buffer is too small for its stated size.
pub fn crop_scale(src_rgb: &[u8], sw: u16, sh: u16, w: u16, h: u16) -> (r: Vec<u8>)
    requires
        w as int * h as int * 3 <= usize::MAX,
        src_rgb@.len() >= 3 * sw * sh ==> sw > 0 && sh > 0,
    ensures
        src_rgb@.len() < 3 * sw * sh ==> r@ == Seq::new((w * h * 3) as nat, |i: int| 0u8),
        src_rgb@.len() >= 3 * sw * sh ==> r@ == rgb_filled(
            src_rgb@,
            sw as u32,
            sh as u32,
            w as u32,
            h as u32,
        ),
{
    assert(3 * (sw as u64) * (sh as u64) <= 3 * 65535 * 65535) by (nonlinear_arith)
        requires
            sw <= 65535,
            sh <= 65535,
    ;
    let need: u64 = 3 * (sw as u64) * (sh as u64);
    if (src_rgb.len() as u64) < need {
        let n: usize = w as usize * h as usize * 3;
        let mut v: Vec<u8> = Vec::new();
        let mut i: usize = 0;
        while i < n
            invariant
                i <= n,
                v@ == Seq::new(i as nat, |k: int| 0u8),
            decreases n - i,
        {
            v.push(0u8);
            i = i + 1;
            assert(v@ =~= Seq::new(i as nat, |k: int| 0u8));
        }
        return v;
    }
    fill_rgb8(copy_bytes(src_rgb), sw as u32, sh as u32, w as u32, h as u32)
}

} // verus!
