//! Text primitives shared by every panel: decimal numbers, character
//! classes, trimming, truncation and CSV quoting.

use vstd::prelude::*;
use vstd::string::StringSliceAdditionalSpecFns;
use vstd::string::StringExecFns;

verus! {

/// The character for the decimal digit `d`.
pub open spec fn digit_char(d: int) -> char {
    (48 + d) as char
}

/// The decimal spelling of `n`, most significant digit first, no padding.
pub open spec fn dec(n: nat) -> Seq<char>
    decreases n,
{
    if n < 10 {
        seq![digit_char(n as int)]
    } else {
        dec(n / 10).push(digit_char((n % 10) as int))
    }
}

/// The decimal spelling of a signed number, with a leading `-` when negative.
pub open spec fn signed_dec(n: int) -> Seq<char> {
    if n < 0 {
        seq!['-'] + dec((-n) as nat)
    } else {
        dec(n as nat)
    }
}

/// A number as `{:02}` prints it: zero-padded to two characters.
pub open spec fn pad2(n: int) -> Seq<char> {
    if 0 <= n < 10 {
        seq!['0'] + dec(n as nat)
    } else {
        signed_dec(n)
    }
}

/// `String::push`: the string gains `c` at its end, and nothing else changes.
#[verifier::external_body]
pub(crate) fn push_char(s: &mut String, c: char)
    ensures
        final(s)@ == old(s)@.push(c),
{
    s.push(c);
}

/// Append a string slice.
pub(crate) fn push_str(s: &mut String, t: &str)
    ensures
        final(s)@ == old(s)@ + t@,
{
    s.append(t);
}

fn digit(d: u64) -> (c: char)
    requires
        d < 10,
    ensures
        c == digit_char(d as int),
{
    let b: u8 = 48u8 + (d as u8);
    b as char
}

/// Append the decimal spelling of `n`.
pub fn push_dec(out: &mut String, n: u64)
    ensures
        final(out)@ == old(out)@ + dec(n as nat),
    decreases n,
{
    if n >= 10 {
        push_dec(out, n / 10);
    }
    push_char(out, digit(n % 10));
}

/// What `str::to_uppercase` makes of a string.
pub uninterp spec fn uppercase(s: Seq<char>) -> Seq<char>;

/// `str::to_uppercase`: the Unicode uppercase of `s`, as [`uppercase`] names
/// it; nothing is claimed of what that is.
#[verifier::external_body]
pub(crate) fn to_uppercase(s: &str) -> (r: String)
    ensures
        r@ == uppercase(s@),
{
    s.to_uppercase()
}

} // verus!

verus! {

/// The characters of `s`, in order.
pub fn chars_of(s: &str) -> (v: Vec<char>)
    ensures
        v@ == s@,
{
    broadcast use vstd::string::group_string_axioms;

    let mut v: Vec<char> = Vec::new();
    for c in it: s.chars()
        invariant
            v@ == it.seq().take(it.index() as int),
    {
        v.push(c);
    }
    v
}

} // verus!

verus! {

/// Rust's `char::is_whitespace`: the characters with the Unicode
/// `White_Space` property.
pub open spec fn is_space(c: char) -> bool {
    let u = c as u32;
    ||| 0x09 <= u <= 0x0d
    ||| u == 0x20
    ||| u == 0x85
    ||| u == 0xa0
    ||| u == 0x1680
    ||| 0x2000 <= u <= 0x200a
    ||| u == 0x2028
    ||| u == 0x2029
    ||| u == 0x202f
    ||| u == 0x205f
    ||| u == 0x3000
}

/// `s` without its leading whitespace.
pub open spec fn trim_start(s: Seq<char>) -> Seq<char>
    decreases s.len(),
{
    if s.len() > 0 && is_space(s[0]) {
        trim_start(s.drop_first())
    } else {
        s
    }
}

/// `s` without its trailing whitespace.
pub open spec fn trim_end(s: Seq<char>) -> Seq<char>
    decreases s.len(),
{
    if s.len() > 0 && is_space(s.last()) {
        trim_end(s.drop_last())
    } else {
        s
    }
}

/// `s` without whitespace at either end, as `str::trim` gives it.
pub open spec fn trim(s: Seq<char>) -> Seq<char> {
    trim_end(trim_start(s))
}

/// Whether `c` is whitespace, as `char::is_whitespace` answers.
pub fn is_whitespace(c: char) -> (b: bool)
    ensures
        b == is_space(c),
{
    let u: u32 = c as u32;
    (0x09 <= u && u <= 0x0d) || u == 0x20 || u == 0x85 || u == 0xa0 || u == 0x1680 || (0x2000
        <= u && u <= 0x200a) || u == 0x2028 || u == 0x2029 || u == 0x202f || u == 0x205f || u
        == 0x3000
}

proof fn lemma_trim_start_skip(s: Seq<char>, i: int)
    requires
        0 <= i <= s.len(),
        forall|j: int| 0 <= j < i ==> is_space(#[trigger] s[j]),
    ensures
        trim_start(s) == trim_start(s.subrange(i, s.len() as int)),
    decreases i,
{
    if i > 0 {
        assert(s.drop_first() =~= s.subrange(1, s.len() as int));
        let t = s.drop_first();
        assert forall|j: int| 0 <= j < i - 1 implies is_space(#[trigger] t[j]) by {
            assert(t[j] == s[j + 1]);
        }
        lemma_trim_start_skip(t, i - 1);
        assert(t.subrange(i - 1, t.len() as int) =~= s.subrange(i, s.len() as int));
    } else {
        assert(s.subrange(0, s.len() as int) =~= s);
    }
}

proof fn lemma_trim_end_skip(s: Seq<char>, k: int)
    requires
        0 <= k <= s.len(),
        forall|j: int| k <= j < s.len() ==> is_space(#[trigger] s[j]),
    ensures
        trim_end(s) == trim_end(s.subrange(0, k)),
    decreases s.len() - k,
{
    if k < s.len() {
        let t = s.drop_last();
        assert forall|j: int| k <= j < t.len() implies is_space(#[trigger] t[j]) by {
            assert(t[j] == s[j]);
        }
        lemma_trim_end_skip(t, k);
        assert(t.subrange(0, k) =~= s.subrange(0, k));
    } else {
        assert(s.subrange(0, k) =~= s);
    }
}

/// The characters of `s` with surrounding whitespace removed.
pub fn trim_chars(s: &str) -> (v: Vec<char>)
    ensures
        v@ == trim(s@),
{
    let cs = chars_of(s);
    let n = cs.len();
    let mut lo: usize = 0;
    while lo < n && is_whitespace(cs[lo])
        invariant
            n == cs@.len(),
            cs@ == s@,
            lo <= n,
            forall|j: int| 0 <= j < lo ==> is_space(#[trigger] cs@[j]),
        decreases n - lo,
    {
        lo = lo + 1;
    }
    proof {
        lemma_trim_start_skip(cs@, lo as int);
    }
    let ghost rest = cs@.subrange(lo as int, n as int);
    assert(trim_start(rest) == rest);
    let mut hi: usize = n;
    while hi > lo && is_whitespace(cs[hi - 1])
        invariant
            n == cs@.len(),
            lo <= hi <= n,
            rest == cs@.subrange(lo as int, n as int),
            forall|j: int| hi <= j < n ==> is_space(#[trigger] cs@[j]),
        decreases hi - lo,
    {
        hi = hi - 1;
    }
    proof {
        let r = rest;
        assert forall|j: int| hi - lo <= j < r.len() implies is_space(#[trigger] r[j]) by {
            assert(r[j] == cs@[j + lo]);
        }
        lemma_trim_end_skip(r, hi - lo);
        assert(r.subrange(0, hi - lo) =~= cs@.subrange(lo as int, hi as int));
    }
    let mut v: Vec<char> = Vec::new();
    let mut i: usize = lo;
    while i < hi
        invariant
            n == cs@.len(),
            lo <= i <= hi <= n,
            v@ == cs@.subrange(lo as int, i as int),
        decreases hi - i,
    {
        v.push(cs[i]);
        i = i + 1;
        assert(v@ =~= cs@.subrange(lo as int, i as int));
    }
    proof {
        let t = cs@.subrange(lo as int, hi as int);
        if t.len() > 0 {
            assert(t.last() == cs@[hi - 1]);
            assert(!is_space(t.last()));
        }
        if rest.len() > 0 {
            assert(rest[0] == cs@[lo as int]);
        }
    }
    v
}

/// A string holding exactly the characters `v`.
pub fn string_of(v: &Vec<char>) -> (s: String)
    ensures
        s@ == v@,
{
    let mut s = String::new();
    let mut i: usize = 0;
    while i < v.len()
        invariant
            i <= v@.len(),
            s@ == v@.take(i as int),
        decreases v@.len() - i,
    {
        push_char(&mut s, v[i]);
        i = i + 1;
        assert(s@ =~= v@.take(i as int));
    }
    assert(v@.take(v@.len() as int) =~= v@);
    s
}

} // verus!

verus! {

/// `s` cut to at most `n` characters, an ellipsis standing in for the last
/// one kept when anything had to go.
pub open spec fn truncated(s: Seq<char>, n: nat) -> Seq<char> {
    if s.len() <= n {
        s
    } else {
        s.take(if n == 0 { 0 } else { n - 1 }).push('…')
    }
}

/// At most `n` characters of `s`, ending in `…` when it was longer.
pub fn truncate(s: &str, n: usize) -> (r: String)
    ensures
        r@ == truncated(s@, n as nat),
        s@.len() <= n ==> r@ == s@,
        s@.len() > n ==> r@.len() == (if n == 0 {
            1
        } else {
            n as int
        }) && r@.last() == '…' && r@.drop_last() == s@.take(r@.len() - 1),
{
    let cs = chars_of(s);
    if cs.len() <= n {
        return string_of(&cs);
    }
    let keep: usize = if n == 0 { 0 } else { n - 1 };
    let mut out = String::new();
    let mut i: usize = 0;
    while i < keep
        invariant
            keep < cs@.len(),
            i <= keep,
            out@ == cs@.take(i as int),
        decreases keep - i,
    {
        push_char(&mut out, cs[i]);
        i = i + 1;
        assert(out@ =~= cs@.take(i as int));
    }
    push_char(&mut out, '…');
    out
}

/// Whether a CSV field has to be quoted: it holds a comma, a double quote, a
/// line feed or a carriage return.
pub open spec fn csv_special(c: char) -> bool {
    c == ',' || c == '"' || c == '\n' || c == '\r'
}

/// `s` with every double quote doubled.
pub open spec fn double_quotes(s: Seq<char>) -> Seq<char>
    decreases s.len(),
{
    if s.len() == 0 {
        seq![]
    } else if s.last() == '"' {
        double_quotes(s.drop_last()) + seq!['"', '"']
    } else {
        double_quotes(s.drop_last()).push(s.last())
    }
}

/// Doubling the quotes never shortens a text.
proof fn lemma_doubled_is_longer(s: Seq<char>)
    ensures
        double_quotes(s).len() >= s.len(),
    decreases s.len(),
{
    if s.len() > 0 {
        lemma_doubled_is_longer(s.drop_last());
    }
}

/// A CSV field: `s` itself, or quoted with its quotes doubled when it holds
/// a comma, a quote or a line break.
pub open spec fn csv_field(s: Seq<char>) -> Seq<char> {
    if exists|i: int| 0 <= i < s.len() && csv_special(#[trigger] s[i]) {
        seq!['"'] + double_quotes(s) + seq!['"']
    } else {
        s
    }
}

/// A CSV field, quoted when it holds a comma, a quote or a newline.
pub fn csv(s: &str) -> (r: String)
    ensures
        r@ == csv_field(s@),
        (forall|i: int|
            0 <= i < s@.len() ==> #[trigger] s@[i] != ',' && s@[i] != '"' && s@[i] != '\n' && s@[i]
                != '\r') ==> r@ == s@,
        (exists|i: int|
            0 <= i < s@.len() && (#[trigger] s@[i] == ',' || s@[i] == '"' || s@[i] == '\n' || s@[i]
                == '\r')) ==> r@.len() >= s@.len() + 2 && r@[0] == '"' && r@.last() == '"',
{
    proof {
        lemma_doubled_is_longer(s@);
    }
    let cs = chars_of(s);
    let mut special = false;
    let mut i: usize = 0;
    while i < cs.len()
        invariant
            i <= cs@.len(),
            special <==> exists|j: int| 0 <= j < i && csv_special(#[trigger] cs@[j]),
        decreases cs@.len() - i,
    {
        let c = cs[i];
        if c == ',' || c == '"' || c == '\n' || c == '\r' {
            special = true;
        }
        i = i + 1;
    }
    if !special {
        return string_of(&cs);
    }
    let mut out = String::new();
    push_char(&mut out, '"');
    let mut k: usize = 0;
    while k < cs.len()
        invariant
            k <= cs@.len(),
            out@ == seq!['"'] + double_quotes(cs@.take(k as int)),
        decreases cs@.len() - k,
    {
        let c = cs[k];
        proof {
            assert(cs@.take(k + 1).drop_last() =~= cs@.take(k as int));
        }
        if c == '"' {
            push_char(&mut out, '"');
            push_char(&mut out, '"');
        } else {
            push_char(&mut out, c);
        }
        k = k + 1;
        assert(out@ =~= seq!['"'] + double_quotes(cs@.take(k as int)));
    }
    push_char(&mut out, '"');
    assert(cs@.take(cs@.len() as int) =~= cs@);
    out
}

} // verus!

verus! {

/// ASCII lower case of one byte; every other byte is left as it is.
pub open spec fn ascii_lower(b: u8) -> u8 {
    if 65 <= b <= 90 {
        (b + 32) as u8
    } else {
        b
    }
}

/// Whether `n` sits in `h` at byte `i`, ignoring ASCII case.
pub open spec fn ci_match_at(h: Seq<u8>, n: Seq<u8>, i: int) -> bool {
    forall|j: int| 0 <= j < n.len() ==> ascii_lower(#[trigger] h[i + j]) == ascii_lower(n[j])
}

/// Whether the non-empty `n` occurs somewhere in `h`, ignoring ASCII case.
pub open spec fn contains_ci(h: Seq<u8>, n: Seq<u8>) -> bool {
    &&& n.len() > 0
    &&& n.len() <= h.len()
    &&& exists|i: int| 0 <= i <= h.len() - n.len() && #[trigger] ci_match_at(h, n, i)
}

/// Whether `n` occurs in `h` exactly, byte for byte, at some position.
pub open spec fn occurs(h: Seq<u8>, n: Seq<u8>) -> bool {
    exists|i: int| 0 <= i && i + n.len() <= h.len() && #[trigger] h.subrange(i, i + n.len()) == n
}

/// Ignoring ASCII case finds at least everything an exact search finds, and
/// an empty needle is found nowhere.
pub proof fn lemma_exact_is_found(h: Seq<u8>, n: Seq<u8>)
    ensures
        n.len() == 0 ==> !contains_ci(h, n),
        n.len() > 0 && occurs(h, n) ==> contains_ci(h, n),
{
    if n.len() > 0 && occurs(h, n) {
        let i = choose|i: int| 0 <= i && i + n.len() <= h.len() && #[trigger] h.subrange(i, i + n.len()) == n;
        assert forall|j: int| 0 <= j < n.len() implies ascii_lower(#[trigger] h[i + j]) == ascii_lower(n[j]) by {
            assert(h.subrange(i, i + n.len())[j] == h[i + j]);
        }
        assert(ci_match_at(h, n, i));
    }
}

fn lower(b: u8) -> (r: u8)
    ensures
        r == ascii_lower(b),
{
    if 65 <= b && b <= 90 {
        b + 32
    } else {
        b
    }
}

/// ASCII-case-insensitive substring test, on the UTF-8 bytes of both.
/// An empty needle is found nowhere.
pub fn contains_ignore_ascii_case(haystack: &str, needle: &str) -> (b: bool)
    ensures
        b == contains_ci(haystack.spec_bytes(), needle.spec_bytes()),
        needle.spec_bytes().len() == 0 ==> !b,
        needle.spec_bytes().len() > 0 && occurs(haystack.spec_bytes(), needle.spec_bytes()) ==> b,
{
    proof {
        lemma_exact_is_found(haystack.spec_bytes(), needle.spec_bytes());
    }
    let h = haystack.as_bytes();
    let n = needle.as_bytes();
    if n.len() == 0 || h.len() < n.len() {
        return false;
    }
    let hl: usize = h.len();
    let nl: usize = n.len();
    let last: usize = hl - nl;
    let mut i: usize = 0;
    while i <= last
        invariant
            hl == h@.len(),
            nl == n@.len(),
            h@ == haystack.spec_bytes(),
            n@ == needle.spec_bytes(),
            0 < n@.len() <= h@.len(),
            last == h@.len() - n@.len(),
            i <= last + 1,
            forall|k: int| 0 <= k < i ==> !ci_match_at(h@, n@, k),
        decreases last + 1 - i,
    {
        let mut j: usize = 0;
        let mut same = true;
        while j < nl
            invariant
                hl == h@.len(),
                nl == n@.len(),
                0 < n@.len() <= h@.len(),
                i <= last,
                last == h@.len() - n@.len(),
                j <= n@.len(),
                same <==> forall|q: int|
                    0 <= q < j ==> ascii_lower(#[trigger] h@[i + q]) == ascii_lower(n@[q]),
            decreases n@.len() - j,
        {
            if lower(h[i + j]) != lower(n[j]) {
                same = false;
            }
            j = j + 1;
        }
        if same {
            assert(ci_match_at(h@, n@, i as int));
            return true;
        }
        i = i + 1;
    }
    false
}

} // verus!
