//! The HFDL aircraft picture's table: every aeroplane the ground network has
//! located, one plot per identity, refreshed in place as later fixes arrive
//! and retired when nothing has refreshed it for [`PLOT_STALE_S`].
//!
//! The table is the map's own, not the decode log's: an aircraft stays on the
//! picture while its fixes keep coming, even after its earliest decodes have
//! scrolled out of the log's rolling window. A plot carries whatever the map
//! draws it with (`P`); this module decides which fix a plot shows, how many
//! it has folded in, and when it goes.

use vstd::prelude::*;
use crate::text::chars_of;

verus! {

/// How long an un-refreshed plot stays on the map, in seconds.
pub const PLOT_STALE_S: i64 = 30 * 60;

/// One aircraft's latest known position, as the map holds it.
pub struct HfdlPlot<P> {
    /// What the map draws: label, position, signal, channel.
    pub data: P,
    /// Unix second of the newest fix folded in.
    pub last_at: i64,
    /// How many fixes this aircraft has contributed.
    pub fixes: u32,
}

/// A decode that carried a position: the aircraft's identity key, when it
/// was heard, and what the map would draw for it.
pub struct HfdlFix<P> {
    pub key: String,
    pub unix: i64,
    pub data: P,
}

/// Strict lexicographic order on character sequences — `String`'s own order,
/// since UTF-8 keeps code-point order.
pub open spec fn lex_lt(a: Seq<char>, b: Seq<char>) -> bool
    decreases a.len(),
{
    if a.len() == 0 {
        b.len() > 0
    } else if b.len() == 0 {
        false
    } else if a[0] != b[0] {
        a[0] < b[0]
    } else {
        lex_lt(a.drop_first(), b.drop_first())
    }
}

/// The order is irreflexive.
proof fn lemma_lex_irreflexive(a: Seq<char>)
    ensures
        !lex_lt(a, a),
    decreases a.len(),
{
    if a.len() > 0 {
        lemma_lex_irreflexive(a.drop_first());
    }
}

/// The order is transitive.
proof fn lemma_lex_transitive(a: Seq<char>, b: Seq<char>, c: Seq<char>)
    requires
        lex_lt(a, b),
        lex_lt(b, c),
    ensures
        lex_lt(a, c),
    decreases a.len(),
{
    if a.len() > 0 && b.len() > 0 && c.len() > 0 {
        if a[0] == b[0] && b[0] == c[0] {
            lemma_lex_transitive(a.drop_first(), b.drop_first(), c.drop_first());
        }
    }
}

/// Any two different sequences are ordered one way or the other.
proof fn lemma_lex_total(a: Seq<char>, b: Seq<char>)
    requires
        a != b,
    ensures
        lex_lt(a, b) || lex_lt(b, a),
    decreases a.len(),
{
    if a.len() > 0 && b.len() > 0 && a[0] == b[0] {
        if a.drop_first() =~= b.drop_first() {
            assert forall|i: int| 0 <= i < a.len() implies a[i] == b[i] by {
                if i > 0 {
                    assert(a[i] == a.drop_first()[i - 1]);
                    assert(b[i] == b.drop_first()[i - 1]);
                }
            }
            assert(a =~= b);
        } else {
            lemma_lex_total(a.drop_first(), b.drop_first());
        }
    } else if a.len() == 0 && b.len() == 0 {
        assert(a =~= b);
    } else if a.len() > 0 && b.len() > 0 {
        assert(a[0] != b[0]);

    }
}

/// Whether `a` sorts before `b`.
fn key_lt(a: &String, b: &String) -> (r: bool)
    ensures
        r == lex_lt(a@, b@),
{
    let x = chars_of(a.as_str());
    let y = chars_of(b.as_str());
    let mut i: usize = 0;
    assert(x@.skip(0) =~= x@);
    assert(y@.skip(0) =~= y@);
    while i < x.len() && i < y.len()
        invariant
            i <= x@.len(),
            i <= y@.len(),
            lex_lt(a@, b@) == lex_lt(x@.skip(i as int), y@.skip(i as int)),
        decreases x@.len() - i,
    {
        if x[i] != y[i] {
            return x[i] < y[i];
        }
        proof {
            assert(x@.skip(i as int).drop_first() =~= x@.skip(i + 1));
            assert(y@.skip(i as int).drop_first() =~= y@.skip(i + 1));
        }
        i = i + 1;
    }
    i == x.len() && i < y.len()
}

} // verus!

verus! {

/// The map's state: which aircraft is selected, and the plot table, oldest
/// heard first with each key once.
pub struct HfdlMapState<P> {
    /// The aircraft whose details are shown, by plot key.
    selected: Option<String>,
    plots: Vec<(String, HfdlPlot<P>)>,
}

/// Whether entry `a` comes before entry `b`: heard earlier, or heard in the
/// same second and keyed lower.
pub open spec fn entry_lt<P>(a: (String, HfdlPlot<P>), b: (String, HfdlPlot<P>)) -> bool {
    a.1.last_at < b.1.last_at || (a.1.last_at == b.1.last_at && lex_lt(a.0@, b.0@))
}

/// The entries are in the order [`entry_lt`] gives: oldest heard first, ties
/// by key.
pub open spec fn oldest_first<P>(s: Seq<(String, HfdlPlot<P>)>) -> bool {
    forall|i: int, j: int| 0 <= i < j < s.len() ==> entry_lt(s[i], s[j])
}

/// Each key is held once.
pub open spec fn keys_unique<P>(s: Seq<(String, HfdlPlot<P>)>) -> bool {
    forall|i: int, j: int| 0 <= i < j < s.len() ==> s[i].0@ != s[j].0@
}

/// Whether the entries hold key `k`.
pub open spec fn has_key<P>(s: Seq<(String, HfdlPlot<P>)>, k: Seq<char>) -> bool {
    exists|i: int| 0 <= i < s.len() && s[i].0@ == k
}

/// Where key `k` is held (meaningful when it is).
pub open spec fn key_index<P>(s: Seq<(String, HfdlPlot<P>)>, k: Seq<char>) -> int {
    choose|i: int| 0 <= i < s.len() && s[i].0@ == k
}

/// The entries as a map from key to plot.
pub open spec fn table_of<P>(s: Seq<(String, HfdlPlot<P>)>) -> Map<Seq<char>, HfdlPlot<P>> {
    Map::new(|k: Seq<char>| has_key(s, k), |k: Seq<char>| s[key_index(s, k)].1)
}
/// A fix's count after one more fix, stopping at the top of its range.
pub open spec fn one_more(n: u32) -> u32 {
    if n == u32::MAX {
        n
    } else {
        (n + 1) as u32
    }
}

/// The table after one fix: a new identity gets a plot of one fix; a fix
/// strictly newer than its plot moves the plot and counts; any other fix is
/// already held and changes nothing.
pub open spec fn fold_fix<P>(m: Map<Seq<char>, HfdlPlot<P>>, f: HfdlFix<P>) -> Map<
    Seq<char>,
    HfdlPlot<P>,
> {
    let k = f.key@;
    if m.contains_key(k) {
        if f.unix > m[k].last_at {
            m.insert(k, HfdlPlot { data: f.data, last_at: f.unix, fixes: one_more(m[k].fixes) })
        } else {
            m
        }
    } else {
        m.insert(k, HfdlPlot { data: f.data, last_at: f.unix, fixes: 1 })
    }
}

/// The table after a decode log, taken in order; decodes without a
/// position are skipped.
pub open spec fn fold_log<P>(m: Map<Seq<char>, HfdlPlot<P>>, log: Seq<Option<HfdlFix<P>>>) -> Map<
    Seq<char>,
    HfdlPlot<P>,
>
    decreases log.len(),
{
    if log.len() == 0 {
        m
    } else {
        let before = fold_log(m, log.drop_last());
        match log.last() {
            Some(f) => fold_fix(before, f),
            None => before,
        }
    }
}

/// Whether a plot last refreshed at `last_at` is still fresh at `now`.
pub open spec fn fresh_at(now: int, last_at: i64) -> bool {
    now - last_at <= PLOT_STALE_S
}

/// The table without the plots nothing has refreshed for longer than
/// [`PLOT_STALE_S`].
pub open spec fn retire<P>(m: Map<Seq<char>, HfdlPlot<P>>, now: int) -> Map<Seq<char>, HfdlPlot<P>> {
    Map::new(|k: Seq<char>| m.contains_key(k) && fresh_at(now, m[k].last_at), |k: Seq<char>| m[k])
}


proof fn lemma_entry_transitive<P>(
    a: (String, HfdlPlot<P>),
    b: (String, HfdlPlot<P>),
    c: (String, HfdlPlot<P>),
)
    requires
        entry_lt(a, b),
        entry_lt(b, c),
    ensures
        entry_lt(a, c),
{
    if a.1.last_at == b.1.last_at && b.1.last_at == c.1.last_at {
        lemma_lex_transitive(a.0@, b.0@, c.0@);
    }
}

proof fn lemma_table_at<P>(s: Seq<(String, HfdlPlot<P>)>, n: int)
    requires
        keys_unique(s),
        0 <= n < s.len(),
    ensures
        table_of(s).contains_key(s[n].0@),
        table_of(s)[s[n].0@] == s[n].1,
{
    let k = s[n].0@;
    assert(has_key(s, k));
    let j = key_index(s, k);
    assert(table_of(s)[k] == s[j].1);
    if j < n {
        assert(s[j].0@ != s[n].0@);
    } else if j > n {
        assert(s[n].0@ != s[j].0@);
    }
}

/// Taking an entry out.
proof fn lemma_table_remove<P>(s: Seq<(String, HfdlPlot<P>)>, i: int)
    requires
        keys_unique(s),
        oldest_first(s),
        0 <= i < s.len(),
    ensures
        keys_unique(s.remove(i)),
        oldest_first(s.remove(i)),
        table_of(s.remove(i)) =~= table_of(s).remove(s[i].0@),
{
    let t = s.remove(i);
    let k = s[i].0@;
    assert forall|a: int, b: int| 0 <= a < b < t.len() implies t[a].0@ != t[b].0@ && entry_lt(
        t[a],
        t[b],
    ) by {
        let sa = if a < i { a } else { a + 1 };
        let sb = if b < i { b } else { b + 1 };
        assert(t[a] == s[sa]);
        assert(t[b] == s[sb]);
    }
    assert forall|x: Seq<char>| has_key(t, x) <==> (has_key(s, x) && x != k) by {
        if has_key(t, x) {
            let j = choose|j: int| 0 <= j < t.len() && t[j].0@ == x;
            let sj = if j < i { j } else { j + 1 };
            assert(s[sj].0@ == x);
            assert(sj != i);
            if sj < i {
                assert(s[sj].0@ != s[i].0@);
            } else {
                assert(s[i].0@ != s[sj].0@);
            }
        }
        if has_key(s, x) && x != k {
            let j = choose|j: int| 0 <= j < s.len() && s[j].0@ == x;
            assert(j != i);
            if j < i {
                assert(t[j].0@ == x);
            } else {
                assert(t[j - 1].0@ == x);
            }
        }
    }
    assert forall|x: Seq<char>| #[trigger] table_of(t).contains_key(x) implies table_of(t)[x]
        == table_of(s)[x] by {
        let j = key_index(t, x);
        lemma_table_at(t, j);
        let sj = if j < i { j } else { j + 1 };
        assert(t[j] == s[sj]);
        lemma_table_at(s, sj);
    }
}

/// Adding a key not yet held, at the place its time and key give it.
proof fn lemma_table_insert<P>(s: Seq<(String, HfdlPlot<P>)>, i: int, e: (String, HfdlPlot<P>))
    requires
        keys_unique(s),
        oldest_first(s),
        !has_key(s, e.0@),
        0 <= i <= s.len(),
        forall|j: int| 0 <= j < i ==> entry_lt(#[trigger] s[j], e),
        i < s.len() ==> entry_lt(e, s[i]),
    ensures
        keys_unique(s.insert(i, e)),
        oldest_first(s.insert(i, e)),
        table_of(s.insert(i, e)) =~= table_of(s).insert(e.0@, e.1),
{
    let t = s.insert(i, e);
    assert forall|j: int| i <= j < s.len() implies entry_lt(e, #[trigger] s[j]) by {
        if j > i {
            lemma_entry_transitive(e, s[i], s[j]);
        }
    }
    assert forall|j: int| 0 <= j < s.len() implies s[j].0@ != e.0@ by {
        if s[j].0@ == e.0@ {
            assert(has_key(s, e.0@));
        }
    }
    assert forall|a: int, b: int| 0 <= a < b < t.len() implies t[a].0@ != t[b].0@ && entry_lt(
        t[a],
        t[b],
    ) by {
        if b < i {
        } else if b == i {
        } else if a < i {
            assert(t[b] == s[b - 1]);
            lemma_entry_transitive(s[a], e, s[b - 1]);
        } else if a == i {
            assert(t[b] == s[b - 1]);
        } else {
            assert(t[a] == s[a - 1]);
            assert(t[b] == s[b - 1]);
        }
    }
    assert forall|k: Seq<char>| has_key(t, k) <==> (has_key(s, k) || k == e.0@) by {
        if has_key(s, k) {
            let j = choose|j: int| 0 <= j < s.len() && s[j].0@ == k;
            if j < i {
                assert(t[j].0@ == k);
            } else {
                assert(t[j + 1].0@ == k);
            }
        }
        if k == e.0@ {
            assert(t[i].0@ == k);
        }
        if has_key(t, k) {
            let j = choose|j: int| 0 <= j < t.len() && t[j].0@ == k;
            if j < i {
                assert(s[j].0@ == k);
            } else if j > i {
                assert(s[j - 1].0@ == k);
            }
        }
    }
    assert forall|k: Seq<char>| #[trigger] table_of(t).contains_key(k) implies table_of(t)[k] == (
    if k == e.0@ {
        e.1
    } else {
        table_of(s)[k]
    }) by {
        let j = key_index(t, k);
        lemma_table_at(t, j);
        if k == e.0@ {
            lemma_table_at(t, i);
        } else {
            assert(j != i);
            if j < i {
                lemma_table_at(s, j);
            } else {
                lemma_table_at(s, j - 1);
            }
        }
    }
}

} // verus!

verus! {

/// The fresh entries, picked out in order, are the retired table.
proof fn lemma_kept<P>(
    folded: Seq<(String, HfdlPlot<P>)>,
    kept: Seq<(String, HfdlPlot<P>)>,
    idx: Seq<int>,
    now: int,
)
    requires
        keys_unique(folded),
        keys_unique(kept),
        idx.len() == kept.len(),
        forall|a: int|
            0 <= a < kept.len() ==> 0 <= #[trigger] idx[a] < folded.len() && kept[a] == folded[idx[a]],
        forall|b: int|
            0 <= b < folded.len() ==> (fresh_at(now, #[trigger] folded[b].1.last_at) <==> has_key(
                kept,
                folded[b].0@,
            )),
        forall|a: int| 0 <= a < kept.len() ==> fresh_at(now, #[trigger] kept[a].1.last_at),
    ensures
        table_of(kept) =~= retire(table_of(folded), now),
{
    let r = retire(table_of(folded), now);
    assert forall|x: Seq<char>| table_of(kept).contains_key(x) <==> r.contains_key(x) by {
        if has_key(kept, x) {
            let a = key_index(kept, x);
            let b = idx[a];
            lemma_table_at(folded, b);
        }
        if r.contains_key(x) {
            let b = key_index(folded, x);
            lemma_table_at(folded, b);
        }
    }
    assert forall|x: Seq<char>| #[trigger] table_of(kept).contains_key(x) implies table_of(kept)[x]
        == r[x] by {
        let a = key_index(kept, x);
        lemma_table_at(kept, a);
        let b = idx[a];
        lemma_table_at(folded, b);
    }
}

/// Whether entry `a` comes before entry `b`; see [`entry_lt`].
fn entry_before<P>(a: &(String, HfdlPlot<P>), b: &(String, HfdlPlot<P>)) -> (r: bool)
    ensures
        r == entry_lt(*a, *b),
{
    a.1.last_at < b.1.last_at || (a.1.last_at == b.1.last_at && key_lt(&a.0, &b.0))
}

impl<P> HfdlMapState<P> {
    /// The plot table as a map from identity key to plot.
    pub closed spec fn table(&self) -> Map<Seq<char>, HfdlPlot<P>> {
        table_of(self.plots@)
    }

    /// The aircraft whose details are shown, by plot key.
    pub closed spec fn selection(&self) -> Option<String> {
        self.selected
    }

    /// The entries, oldest heard first.
    pub closed spec fn entries(&self) -> Seq<(String, HfdlPlot<P>)> {
        self.plots@
    }

    /// The entries are oldest heard first, each key once.
    #[verifier::type_invariant]
    spec fn wf(&self) -> bool {
        keys_unique(self.plots@) && oldest_first(self.plots@)
    }

    /// No aircraft, nothing selected.
    pub fn new() -> (r: Self)
        ensures
            r.table() =~= Map::<Seq<char>, HfdlPlot<P>>::empty(),
            r.entries().len() == 0,
            r.selection() is None,
    {
        HfdlMapState { selected: None, plots: Vec::new() }
    }

}

impl<P> Default for HfdlMapState<P> {
    /// No aircraft, nothing selected; see [`HfdlMapState::new`].
    fn default() -> (r: Self)
        ensures
            r.table() =~= Map::<Seq<char>, HfdlPlot<P>>::empty(),
            r.entries().len() == 0,
            r.selection() is None,
    {
        HfdlMapState::new()
    }
}

impl<P> HfdlMapState<P> {
    /// Fold one fix into the table.
    fn observe_one(plots: &mut Vec<(String, HfdlPlot<P>)>, f: HfdlFix<P>)
        requires
            keys_unique(old(plots)@),
            oldest_first(old(plots)@),
        ensures
            keys_unique(final(plots)@),
            oldest_first(final(plots)@),
            table_of(final(plots)@) =~= fold_fix(table_of(old(plots)@), f),
    {
        let ghost s = plots@;
        let ghost m0 = table_of(s);
        let n: usize = plots.len();
        let mut i: usize = 0;
        while i < n && !(plots[i].0 == f.key)
            invariant
                plots@ == s,
                n == s.len(),
                i <= n,
                forall|j: int| 0 <= j < i ==> (#[trigger] s[j]).0@ != f.key@,
            decreases n - i,
        {
            i = i + 1;
        }
        let mut fixes: u32 = 1;
        if i < n {
            proof {
                lemma_table_at(s, i as int);
            }
            if f.unix <= plots[i].1.last_at {
                return;
            }
            let (_held, old_plot) = plots.remove(i);
            fixes = if old_plot.fixes == u32::MAX {
                u32::MAX
            } else {
                old_plot.fixes + 1
            };
            proof {
                lemma_table_remove(s, i as int);
            }
        } else {
            proof {
                if has_key(s, f.key@) {
                    let j = choose|j: int| 0 <= j < s.len() && s[j].0@ == f.key@;
                    assert(s[j].0@ != f.key@);
                }
            }
        }
        let e = (f.key, HfdlPlot { data: f.data, last_at: f.unix, fixes });
        let ghost s1 = plots@;
        proof {
            assert(table_of(s1) =~= m0.remove(e.0@));
            assert(!has_key(s1, e.0@)) by {
                assert(!table_of(s1).contains_key(e.0@));
            }
        }
        let m: usize = plots.len();
        let mut p: usize = 0;
        while p < m && entry_before(&plots[p], &e)
            invariant
                plots@ == s1,
                m == s1.len(),
                p <= m,
                forall|j: int| 0 <= j < p ==> entry_lt(#[trigger] s1[j], e),
            decreases m - p,
        {
            p = p + 1;
        }
        proof {
            if p < m {
                let a = s1[p as int];
                if a.0@ == e.0@ {
                    assert(has_key(s1, e.0@));
                }
                if a.1.last_at == e.1.last_at {
                    lemma_lex_total(a.0@, e.0@);
                }
            }
            lemma_table_insert(s1, p as int, e);
        }
        plots.insert(p, e);
    }

    /// Fold a status snapshot's log into the table, then retire what nothing
    /// has refreshed for [`PLOT_STALE_S`]; see [`fold_log`] and [`retire`].
    ///
    /// A fix already held at the same timestamp is left alone, so a snapshot
    /// re-sent — they carry the whole log every time — cannot inflate a fix
    /// count. Only a strictly newer fix moves a plot.
    pub fn observe(&mut self, log: Vec<Option<HfdlFix<P>>>, now: i64)
        ensures
            final(self).table() =~= retire(fold_log(old(self).table(), log@), now as int),
            final(self).selection() == old(self).selection(),
    {
        proof {
            use_type_invariant(&*self);
        }
        let ghost m0 = self.table();
        let mut plots: Vec<(String, HfdlPlot<P>)> = Vec::new();
        std::mem::swap(&mut plots, &mut self.plots);
        let ghost all = log@;
        let count: usize = log.len();
        let mut rest = log;
        let mut done: usize = 0;
        assert(all.take(0) =~= Seq::<Option<HfdlFix<P>>>::empty());
        while rest.len() > 0
            invariant
                keys_unique(plots@),
                oldest_first(plots@),
                count == all.len(),
                done + rest@.len() == all.len(),
                rest@ =~= all.skip(done as int),
                table_of(plots@) =~= fold_log(m0, all.take(done as int)),
                self.selected == old(self).selected,
            decreases rest@.len(),
        {
            let d = rest.remove(0);
            proof {
                assert(all.take(done + 1).drop_last() =~= all.take(done as int));
                assert(all.take(done + 1).last() == d);
            }
            if let Some(f) = d {
                Self::observe_one(&mut plots, f);
            }
            done = done + 1;
        }
        assert(all.take(all.len() as int) =~= all);
        let ghost folded = plots@;
        let total: usize = plots.len();
        let mut kept: Vec<(String, HfdlPlot<P>)> = Vec::new();
        let mut src = plots;
        let mut k: usize = 0;
        let ghost mut idx: Seq<int> = Seq::empty();
        assert(src@ =~= folded.skip(0));
        while src.len() > 0
            invariant
                keys_unique(folded),
                oldest_first(folded),
                total == folded.len(),
                k + src@.len() == folded.len(),
                src@ =~= folded.skip(k as int),
                keys_unique(kept@),
                oldest_first(kept@),
                idx.len() == kept@.len(),
                forall|a: int|
                    0 <= a < kept@.len() ==> 0 <= #[trigger] idx[a] < k && kept@[a] == folded[idx[a]],
                forall|b: int|
                    0 <= b < k ==> (fresh_at(now as int, #[trigger] folded[b].1.last_at)
                        <==> has_key(kept@, folded[b].0@)),
                forall|a: int| 0 <= a < kept@.len() ==> fresh_at(now as int, #[trigger] kept@[a].1.last_at),
                self.selected == old(self).selected,
            decreases src@.len(),
        {
            let e = src.remove(0);
            assert(e == folded[k as int]);
            let ghost before = kept@;
            let age: i128 = now as i128 - e.1.last_at as i128;
            if age <= PLOT_STALE_S as i128 {
                kept.push(e);
                proof {
                    assert forall|a: int, b: int|
                        #![trigger kept@[a], kept@[b]]
                        0 <= a < b < kept@.len() implies kept@[a].0@ != kept@[b].0@ && entry_lt(
                            kept@[a],
                            kept@[b],
                        ) by {
                        assert(kept@[a] == before[a]);
                        if b < before.len() {
                            assert(kept@[b] == before[b]);
                        } else {
                            assert(kept@[b] == folded[k as int]);
                            assert(idx[a] < k);
                            assert(kept@[a] == folded[idx[a]]);
                        }
                    }
                    assert forall|b: int| 0 <= b < k implies (fresh_at(now as int, #[trigger] folded[b].1.last_at)
                        <==> has_key(kept@, folded[b].0@)) by {
                        assert(folded[b].0@ != folded[k as int].0@);
                        if has_key(kept@, folded[b].0@) {
                            let a = choose|a: int| 0 <= a < kept@.len() && kept@[a].0@ == folded[b].0@;
                            if a < before.len() {
                                assert(kept@[a] == before[a]);
                            }
                        }
                        if has_key(before, folded[b].0@) {
                            let a = choose|a: int| 0 <= a < before.len() && before[a].0@ == folded[b].0@;
                            assert(kept@[a] == before[a]);
                        }
                    }
                    assert(kept@[before.len() as int] == e);
                    assert(has_key(kept@, folded[k as int].0@));
                    idx = idx.push(k as int);
                    assert forall|a: int| 0 <= a < kept@.len() implies 0 <= #[trigger] idx[a]
                        < k + 1 && kept@[a] == folded[idx[a]] by {
                        if a < before.len() {
                            assert(kept@[a] == before[a]);
                        }
                    }
                }
            } else {
                proof {
                    if has_key(kept@, folded[k as int].0@) {
                        let a = choose|a: int| 0 <= a < kept@.len() && kept@[a].0@ == folded[k as int].0@;
                        assert(idx[a] < k);
                        assert(kept@[a] == folded[idx[a]]);
                    }
                }
            }
            k = k + 1;
        }
        proof {
            assert(k == folded.len());
            lemma_kept(folded, kept@, idx, now as int);
        }
        self.plots = kept;
    }
}

} // verus!

verus! {

impl<P> HfdlMapState<P> {
    /// The aircraft currently plotted, oldest heard first and, among those
    /// heard in the same second, by key — a stable order, so the map's
    /// tie-breaks do not shuffle between frames.
    pub fn plots(&self) -> (r: &Vec<(String, HfdlPlot<P>)>)
        ensures
            r@ == self.entries(),
            oldest_first(r@),
            keys_unique(r@),
            table_of(r@) == self.table(),
    {
        proof {
            use_type_invariant(self);
        }
        &self.plots
    }

    /// How many aircraft are plotted.
    pub fn len(&self) -> (n: usize)
        ensures
            n == self.table().len(),
    {
        proof {
            use_type_invariant(self);
        }
        proof {
            lemma_table_len(self.plots@);
        }
        self.plots.len()
    }

    /// Whether no aircraft is plotted.
    pub fn is_empty(&self) -> (b: bool)
        ensures
            b == (self.table() =~= Map::<Seq<char>, HfdlPlot<P>>::empty()),
    {
        proof {
            use_type_invariant(self);
        }
        proof {
            if self.plots@.len() > 0 {
                lemma_table_at(self.plots@, 0);
            }
        }
        self.plots.len() == 0
    }

    /// The aircraft whose details are shown.
    pub fn selected(&self) -> (r: &Option<String>)
        ensures
            *r == self.selection(),
    {
        &self.selected
    }

    /// Show the details of `key`'s aircraft, or of none.
    pub fn select(&mut self, key: Option<String>)
        ensures
            final(self).selection() == key,
            final(self).table() == old(self).table(),
            final(self).entries() == old(self).entries(),
    {
        proof {
            use_type_invariant(&*self);
        }
        self.selected = key;
    }
}

/// A table whose keys are each held once has as many keys as entries.
proof fn lemma_table_len<P>(s: Seq<(String, HfdlPlot<P>)>)
    requires
        keys_unique(s),
    ensures
        table_of(s).dom().finite(),
        table_of(s).len() == s.len(),
    decreases s.len(),
{
    let t = table_of(s);
    if s.len() == 0 {
        assert(t.dom() =~= Set::<Seq<char>>::empty());
    } else {
        let s0 = s.drop_last();
        assert(keys_unique(s0));
        lemma_table_len(s0);
        let k = s.last().0@;
        assert(!has_key(s0, k)) by {
            if has_key(s0, k) {
                let j = choose|j: int| 0 <= j < s0.len() && s0[j].0@ == k;
                assert(s[j].0@ != s[s.len() - 1].0@);
            }
        }
        assert(t.dom() =~= table_of(s0).dom().insert(k)) by {
            assert forall|x: Seq<char>| t.dom().contains(x) <==> table_of(s0).dom().insert(k).contains(
                x,
            ) by {
                if has_key(s, x) {
                    let j = choose|j: int| 0 <= j < s.len() && s[j].0@ == x;
                    if j < s.len() - 1 {
                        assert(s0[j] == s[j]);
                    }
                }
                if has_key(s0, x) {
                    let j = choose|j: int| 0 <= j < s0.len() && s0[j].0@ == x;
                    assert(s[j] == s0[j]);
                }
            }
        }
    }
}

} // verus!

verus! {

/// Whether every fix in `log` is held by `m` at a time no earlier than its own.
pub open spec fn covers<P>(m: Map<Seq<char>, HfdlPlot<P>>, log: Seq<Option<HfdlFix<P>>>) -> bool {
    forall|j: int|
        0 <= j < log.len() && (#[trigger] log[j]) is Some ==> {
            let f = log[j]->0;
            m.contains_key(f.key@) && f.unix <= m[f.key@].last_at
        }
}

/// Folding a log keeps every plot already held, never moves one back in time,
/// and ends up holding each fix of the log at a time no earlier than its own.
proof fn lemma_fold_covers<P>(m: Map<Seq<char>, HfdlPlot<P>>, log: Seq<Option<HfdlFix<P>>>)
    ensures
        covers(fold_log(m, log), log),
        forall|k: Seq<char>|
            #[trigger] m.contains_key(k) ==> fold_log(m, log).contains_key(k) && m[k].last_at
                <= fold_log(m, log)[k].last_at,
    decreases log.len(),
{
    if log.len() > 0 {
        let head = log.drop_last();
        lemma_fold_covers(m, head);
        let before = fold_log(m, head);
        let after = fold_log(m, log);
        assert forall|j: int| 0 <= j < log.len() && (#[trigger] log[j]) is Some implies {
            let f = log[j]->0;
            after.contains_key(f.key@) && f.unix <= after[f.key@].last_at
        } by {
            if j < log.len() - 1 {
                assert(head[j] == log[j]);
            }
        }
    }
}

/// What a second fold of the same log does to the table the first one left
/// after retiring: the survivors stay as they are, and anything folded back
/// in is no newer than it was the first time.
proof fn lemma_refold<P>(
    first: Map<Seq<char>, HfdlPlot<P>>,
    kept: Map<Seq<char>, HfdlPlot<P>>,
    log: Seq<Option<HfdlFix<P>>>,
)
    requires
        covers(first, log),
        forall|k: Seq<char>| #[trigger]
            kept.contains_key(k) ==> first.contains_key(k) && kept[k] == first[k],
    ensures
        ({
            let again = fold_log(kept, log);
            &&& forall|k: Seq<char>| #[trigger]
                kept.contains_key(k) ==> again.contains_key(k) && again[k] == kept[k]
            &&& forall|k: Seq<char>|
                #[trigger] again.contains_key(k) && !kept.contains_key(k) ==> first.contains_key(k)
                    && again[k].last_at <= first[k].last_at
        }),
    decreases log.len(),
{
    if log.len() > 0 {
        let head = log.drop_last();
        assert(covers(first, head)) by {
            assert forall|j: int| 0 <= j < head.len() && (#[trigger] head[j]) is Some implies {
                let f = head[j]->0;
                first.contains_key(f.key@) && f.unix <= first[f.key@].last_at
            } by {
                assert(head[j] == log[j]);
            }
        }
        lemma_refold(first, kept, head);
        let j = log.len() - 1;
        assert(log[j] == log.last());
        let before = fold_log(kept, head);
        let again = fold_log(kept, log);
        if let Some(f) = log.last() {
            let k = f.key@;
            assert(first.contains_key(k) && f.unix <= first[k].last_at);
            if kept.contains_key(k) {
                assert(again == before);
            }
            assert forall|x: Seq<char>| #[trigger] kept.contains_key(x) implies again.contains_key(x)
                && again[x] == kept[x] by {
                if x != k {
                    assert(before.contains_key(x));
                }
            }
            assert forall|x: Seq<char>| #[trigger]
                again.contains_key(x) && !kept.contains_key(x) implies first.contains_key(x)
                && again[x].last_at <= first[x].last_at by {
                if x != k {
                    assert(before.contains_key(x));
                }
            }
        }
    }
}

/// Observing the same log twice at the same moment leaves the table as
/// observing it once did: a re-sent snapshot neither adds plots nor counts
/// its fixes again.
pub proof fn lemma_observe_idempotent<P>(
    m: Map<Seq<char>, HfdlPlot<P>>,
    log: Seq<Option<HfdlFix<P>>>,
    now: int,
)
    ensures
        retire(fold_log(retire(fold_log(m, log), now), log), now) =~= retire(
            fold_log(m, log),
            now,
        ),
{
    let first = fold_log(m, log);
    let kept = retire(first, now);
    lemma_fold_covers(m, log);
    lemma_refold(first, kept, log);
    let again = fold_log(kept, log);
    assert forall|k: Seq<char>| #[trigger]
        retire(again, now).contains_key(k) <==> kept.contains_key(k) by {
        if again.contains_key(k) && !kept.contains_key(k) {
            assert(first.contains_key(k));
        }
    }
}

} // verus!

verus! {

/// Whether two entries say the same thing: the same key and the same plot.
pub open spec fn same_entry<P>(a: (String, HfdlPlot<P>), b: (String, HfdlPlot<P>)) -> bool {
    a.0@ == b.0@ && a.1 == b.1
}

/// The plot order depends on nothing but the table: two entry lists, each
/// oldest heard first with each key once, that hold the same table hold it
/// in the same order — so the map's tie-breaks cannot shuffle between frames.
pub proof fn lemma_order_follows_table<P>(a: Seq<(String, HfdlPlot<P>)>, b: Seq<(String, HfdlPlot<P>)>)
    requires
        keys_unique(a),
        oldest_first(a),
        keys_unique(b),
        oldest_first(b),
        table_of(a) == table_of(b),
    ensures
        a.len() == b.len(),
        forall|i: int| 0 <= i < a.len() ==> same_entry(#[trigger] a[i], b[i]),
    decreases a.len(),
{
    lemma_table_len(a);
    lemma_table_len(b);
    if a.len() > 0 {
        let t = table_of(a);
        lemma_table_at(a, 0);
        lemma_table_at(b, 0);
        let ka = a[0].0@;
        let kb = b[0].0@;
        let i = key_index(b, ka);
        let j = key_index(a, kb);
        lemma_table_at(b, i);
        lemma_table_at(a, j);
        if ka != kb {
            assert(j != 0);
            assert(i != 0);
            assert(entry_lt(a[0], a[j]));
            assert(entry_lt(b[0], b[i]));
            if a[0].1.last_at == b[0].1.last_at {
                lemma_lex_transitive(ka, kb, ka);
                lemma_lex_irreflexive(ka);
            }
        }
        assert(same_entry(a[0], b[0]));
        lemma_table_remove(a, 0);
        lemma_table_remove(b, 0);
        let a1 = a.remove(0);
        let b1 = b.remove(0);
        assert(table_of(a1) =~= table_of(b1));
        lemma_order_follows_table(a1, b1);
        assert forall|k: int| 0 <= k < a.len() implies same_entry(#[trigger] a[k], b[k]) by {
            if k > 0 {
                assert(a[k] == a1[k - 1]);
                assert(b[k] == b1[k - 1]);
            }
        }
    }
}

} // verus!
