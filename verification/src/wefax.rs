//! Client-side state for the weather-fax panel: the chart being painted, and
//! the gallery of ones already saved.
//!
//! The picture is built here as well as in the engine: a remote client sees
//! only the line events, never the engine's buffer, and the panel has to be
//! able to paint a chart that is still twelve minutes from finishing.
//!
//! The gallery is generic over the texture type the panel draws with, so the
//! bookkeeping here is the same whatever holds the pixels.

use vstd::prelude::*;

verus! {

/// Widest a chart may get before the panel refuses it, as a guard on a length
/// that arrives from the wire.
pub const MAX_W: usize = 4096;

/// Tallest, matching the demodulator's own limit with headroom.
pub const MAX_H: usize = 4096;

/// Charts the gallery will hold thumbnails for.
pub const GALLERY_MAX: usize = 240;

/// The grey that fills rows dropped on the way.
pub const GAP_GREY: u8 = 128;

/// The raster of the chart being received: one byte per pixel, top row
/// first.
struct Raster {
    live: Vec<u8>,
    live_w: u16,
    live_h: u16,
    /// Which picture `live` belongs to, so a restarted transmission clears it
    /// rather than appending to the previous chart.
    image_id: u32,
    /// Rows have arrived since the picture was last shown.
    dirty: bool,
}

/// A row of `w` mid-grey pixels, `n` times over.
pub open spec fn grey_rows(n: nat, w: nat) -> Seq<u8> {
    Seq::new(n * w, |i: int| GAP_GREY)
}

/// The live chart's state as a value: pixels, width, height, picture id and
/// whether it changed since last shown.
pub struct LiveView {
    pub live: Seq<u8>,
    pub w: u16,
    pub h: u16,
    pub id: u32,
    pub dirty: bool,
}

/// Whether a scan line is refused outright: empty, or wider than any chart.
pub open spec fn row_refused(gray: Seq<u8>) -> bool {
    gray.len() == 0 || gray.len() > MAX_W
}

/// The chart a scan line is written into: the current one, or a fresh empty
/// one as wide as the line when the picture id changed or the line is the
/// top row.
pub open spec fn target_of(s: LiveView, image_id: u32, y: u16, gray: Seq<u8>) -> LiveView {
    if image_id != s.id || y == 0 {
        LiveView { live: Seq::empty(), w: gray.len() as u16, h: 0, id: image_id, dirty: s.dirty }
    } else {
        s
    }
}

/// Whether the line is written (possibly after a grey band for the rows that
/// never came): it matches the chart's width, its row is one the chart can
/// hold — below [`MAX_H`], gap included — and it is not behind the write
/// head.
pub open spec fn row_taken(t: LiveView, y: u16, gray: Seq<u8>) -> bool {
    gray.len() == t.w && y < MAX_H && y >= t.h
}

/// The chart after a scan line `gray` for row `y` of picture `image_id`.
///
/// A refused line changes nothing. Otherwise the chart restarts when the id
/// is new or the row is the top one. A line of the wrong width, one whose
/// row the chart cannot hold, or one behind the write head stops there;
/// otherwise a gap before the line is filled with mid-grey rows and the line
/// becomes the next row.
pub open spec fn after_line(s: LiveView, image_id: u32, y: u16, gray: Seq<u8>) -> LiveView {
    if row_refused(gray) {
        s
    } else {
        let t = target_of(s, image_id, y, gray);
        if !row_taken(t, y, gray) {
            t
        } else {
            LiveView {
                live: t.live + grey_rows((y - t.h) as nat, t.w as nat) + gray,
                w: t.w,
                h: (y + 1) as u16,
                id: t.id,
                dirty: true,
            }
        }
    }
}

/// A top row always starts a new chart: any accepted line for row 0 leaves
/// a chart of exactly that one row, as wide as the line, whatever the chart
/// held before and whatever the picture id. A line for a later row of the
/// same picture, within the limits and not behind the write head, extends the
/// chart to that row and ends with the line, keeping every earlier pixel.
pub proof fn lemma_top_row_starts_a_chart(s: LiveView, image_id: u32, y: u16, gray: Seq<u8>)
    requires
        0 < gray.len() <= MAX_W,
    ensures
        y == 0 ==> after_line(s, image_id, y, gray).h == 1 && after_line(s, image_id, y, gray).w
            == gray.len() && after_line(s, image_id, y, gray).live == gray && after_line(
            s,
            image_id,
            y,
            gray,
        ).id == image_id,
        (y > 0 && image_id == s.id && gray.len() == s.w && s.h <= y < MAX_H) ==> {
            let t = after_line(s, image_id, y, gray);
            &&& t.h == y + 1
            &&& t.live.len() == s.live.len() + (y - s.h) * s.w + gray.len()
            &&& t.live.subrange(0, s.live.len() as int) == s.live
            &&& t.live.subrange(t.live.len() - gray.len(), t.live.len() as int) == gray
        },
{
    if y == 0 {
        assert(Seq::<u8>::empty() + grey_rows(0, gray.len() as nat) + gray =~= gray);
    }
    if y > 0 && image_id == s.id && gray.len() == s.w && s.h <= y < MAX_H {
        let t = after_line(s, image_id, y, gray);
        let g = grey_rows((y - s.h) as nat, s.w as nat);
        assert(t.live == s.live + g + gray);
        assert((s.live + g + gray).subrange(0, s.live.len() as int) =~= s.live);
        assert((s.live + g + gray).subrange(
            (s.live + g + gray).len() - gray.len(),
            (s.live + g + gray).len() as int,
        ) =~= gray);
    }
}

impl Raster {
    /// The chart holds exactly its rows, is no wider than [`MAX_W`] and no
    /// taller than [`MAX_H`].
    spec fn wf(self) -> bool {
        &&& self.live@.len() == self.live_w as int * self.live_h as int
        &&& self.live_w as int <= MAX_W
        &&& self.live_h as int <= MAX_H
    }

    /// The chart as a value.
    spec fn view(self) -> LiveView {
        LiveView {
            live: self.live@,
            w: self.live_w,
            h: self.live_h,
            id: self.image_id,
            dirty: self.dirty,
        }
    }

    /// An empty chart, no picture yet.
    fn new() -> (c: Raster)
        ensures
            c.wf(),
            c.view() == (LiveView { live: Seq::empty(), w: 0, h: 0, id: 0, dirty: false }),
    {
        Raster { live: Vec::new(), live_w: 0, live_h: 0, image_id: 0, dirty: false }
    }

    /// The received pixels, top row first.
    fn pixels(&self) -> (r: &Vec<u8>)
        requires
            self.wf(),
        ensures
            r@ == self.view().live,
            r@.len() == self.view().w as int * self.view().h as int,
            self.view().w as int <= MAX_W,
    {
        &self.live
    }

    /// Width and rows received.
    fn size(&self) -> (r: (u16, u16))
        ensures
            r == (self.view().w, self.view().h),
            self.wf() ==> r.1 as int <= MAX_H && r.0 as int <= MAX_W,
    {
        (self.live_w, self.live_h)
    }

    /// Whether rows have arrived since the chart was last shown.
    fn is_dirty(&self) -> (r: bool)
        ensures
            r == self.view().dirty,
    {
        self.dirty
    }

    /// The chart has been shown as it stands.
    fn mark_shown(&mut self)
        requires
            old(self).wf(),
        ensures
            final(self).wf(),
            final(self).view() == (LiveView { dirty: false, ..old(self).view() }),
    {
        self.dirty = false;
    }

    /// Throw the pixels away, keeping the width and the picture id.
    fn clear(&mut self)
        requires
            old(self).wf(),
        ensures
            final(self).wf(),
            final(self).view() == (LiveView {
                live: Seq::empty(),
                h: 0,
                dirty: false,
                ..old(self).view()
            }),
    {
        self.live.clear();
        self.live_h = 0;
        self.dirty = false;
    }

    /// Adopt a freshly decoded scan line; see [`after_line`].
    fn push_line(&mut self, image_id: u32, y: u16, gray: &[u8])
        requires
            old(self).wf(),
        ensures
            final(self).wf(),
            final(self).view() == after_line(old(self).view(), image_id, y, gray@),
            final(self).view().h <= MAX_H,
    {
        let n: usize = gray.len();
        if n == 0 || n > MAX_W {
            return;
        }
        if image_id != self.image_id || y == 0 {
            self.image_id = image_id;
            self.live.clear();
            self.live_w = n as u16;
            self.live_h = 0;
            assert(self.live@.len() == self.live_w as int * self.live_h as int) by (nonlinear_arith)
                requires
                    self.live@.len() == 0,
                    self.live_h == 0,
            ;
        }
        if n != self.live_w as usize || y as usize >= MAX_H {
            return;
        }
        let w: usize = n;
        let ghost base = self.live@;
        let ghost h0 = self.live_h;
        let ghost id0 = self.image_id;
        let ghost d0 = self.dirty;
        assert(base.len() == self.live_w as int * self.live_h as int);
        assert(base.len() == h0 as int * w) by (nonlinear_arith)
            requires
                base.len() == self.live_w as int * self.live_h as int,
                self.live_w as int == w,
                self.live_h == h0,
        ;
        if y < self.live_h {
            return;
        }
        let d: usize = (y - self.live_h) as usize;
        assert(d * w <= 65535 * 4096) by (nonlinear_arith)
            requires
                d <= 65535,
                w <= 4096,
        ;
        let gap: usize = d * w;
        let mut k: usize = 0;
        while k < gap
            invariant
                k <= gap,
                self.live@ == base + Seq::new(k as nat, |i: int| GAP_GREY),
                self.live_w as int == w,
                self.live_h == h0,
                self.image_id == id0,
                self.dirty == d0,
            decreases gap - k,
        {
            self.live.push(GAP_GREY);
            k = k + 1;
            assert(self.live@ =~= base + Seq::new(k as nat, |i: int| GAP_GREY));
        }
        let ghost grey = self.live@;
        let mut j: usize = 0;
        while j < n
            invariant
                n == gray@.len(),
                j <= n,
                self.live@ == grey + gray@.take(j as int),
                self.live_w as int == w,
                self.live_h == h0,
                self.image_id == id0,
                self.dirty == d0,
            decreases n - j,
        {
            self.live.push(gray[j]);
            j = j + 1;
            assert(self.live@ =~= grey + gray@.take(j as int));
        }
        assert(gray@.take(n as int) =~= gray@);
        self.live_h = y + 1;
        self.dirty = true;
        proof {
            assert(self.live@.len() == self.live_w as int * self.live_h as int) by (nonlinear_arith)
                requires
                    self.live@.len() == h0 as int * w + (y - h0) as int * w + w,
                    self.live_w as int == w,
                    self.live_h as int == y + 1,
            ;
            assert(grey_rows((y - h0) as nat, w as nat) =~= Seq::new(gap as nat, |i: int| GAP_GREY));
        }
    }
}


/// The chart being received: one byte per pixel, top row first, no wider
/// than [`MAX_W`] and no taller than [`MAX_H`].
pub struct LiveChart {
    raster: Raster,
}

impl LiveChart {
    /// The raster holds exactly its rows and stays within the limits.
    #[verifier::type_invariant]
    spec fn inv(self) -> bool {
        self.raster.wf()
    }

    /// The chart as a value.
    pub closed spec fn view(self) -> LiveView {
        self.raster.view()
    }

    /// An empty chart, no picture yet.
    pub fn new() -> (c: LiveChart)
        ensures
            c.view() == (LiveView { live: Seq::empty(), w: 0, h: 0, id: 0, dirty: false }),
    {
        LiveChart { raster: Raster::new() }
    }

    /// The received pixels, top row first: exactly its rows.
    pub fn pixels(&self) -> (r: &Vec<u8>)
        ensures
            r@ == self.view().live,
            r@.len() == self.view().w as int * self.view().h as int,
            self.view().w as int <= MAX_W,
            self.view().h as int <= MAX_H,
    {
        proof {
            use_type_invariant(self);
        }
        self.raster.pixels()
    }

    /// Width and rows received, within [`MAX_W`] and [`MAX_H`].
    pub fn size(&self) -> (r: (u16, u16))
        ensures
            r == (self.view().w, self.view().h),
            r.0 as int <= MAX_W,
            r.1 as int <= MAX_H,
    {
        proof {
            use_type_invariant(self);
        }
        self.raster.size()
    }

    /// Whether rows have arrived since the chart was last shown.
    pub fn is_dirty(&self) -> (r: bool)
        ensures
            r == self.view().dirty,
    {
        self.raster.is_dirty()
    }

    /// The chart has been shown as it stands.
    pub fn mark_shown(&mut self)
        ensures
            final(self).view() == (LiveView { dirty: false, ..old(self).view() }),
    {
        proof {
            use_type_invariant(&*self);
        }
        let mut r = Raster::new();
        std::mem::swap(&mut r, &mut self.raster);
        r.mark_shown();
        self.raster = r;
    }

    /// Throw the pixels away, keeping the width and the picture id.
    pub fn clear(&mut self)
        ensures
            final(self).view() == (LiveView {
                live: Seq::empty(),
                h: 0,
                dirty: false,
                ..old(self).view()
            }),
    {
        proof {
            use_type_invariant(&*self);
        }
        let mut r = Raster::new();
        std::mem::swap(&mut r, &mut self.raster);
        r.clear();
        self.raster = r;
    }

    /// Adopt a freshly decoded scan line; see [`after_line`]. The chart
    /// never grows past [`MAX_H`] rows.
    pub fn push_line(&mut self, image_id: u32, y: u16, gray: &[u8])
        ensures
            final(self).view() == after_line(old(self).view(), image_id, y, gray@),
            final(self).view().h <= MAX_H,
            (y == 0 && 0 < gray@.len() <= MAX_W) ==> final(self).view().h == 1,
            (y == 0 && 0 < gray@.len() <= MAX_W) ==> final(self).view().w == gray@.len(),
            (y == 0 && 0 < gray@.len() <= MAX_W) ==> final(self).view().live == gray@,
    {
        proof {
            if 0 < gray@.len() <= MAX_W {
                lemma_top_row_starts_a_chart(old(self).view(), image_id, y, gray@);
            }
            use_type_invariant(&*self);
        }
        let mut r = Raster::new();
        std::mem::swap(&mut r, &mut self.raster);
        r.push_line(image_id, y, gray);
        self.raster = r;
    }
}

} // verus!

verus! {

/// A saved chart in the gallery. `T` is whatever the panel draws a picture
/// with.
pub struct Chart<T> {
    /// Thumbnail, as the engine rendered it out of the stored file.
    pub texture: T,
    /// The chart at full size, once fetched or promoted from one that has just
    /// been received.
    pub full: Option<T>,
    /// File name it was saved under, which carries its date and dial.
    pub name: String,
    /// Size of the chart itself, not of the thumbnail.
    pub size: (u16, u16),
    /// When it was received, as the engine ordered the store by.
    pub unix: i64,
}

/// The gallery is newest first and holds each file name once.
pub open spec fn gallery_ok<T>(g: Seq<Chart<T>>) -> bool {
    &&& forall|i: int, j: int| 0 <= i < j < g.len() ==> g[i].unix >= g[j].unix
    &&& forall|i: int, j: int| 0 <= i < j < g.len() ==> g[i].name@ != g[j].name@
}

/// Whether a chart named `name` is in the gallery.
pub open spec fn holds<T>(g: Seq<Chart<T>>, name: Seq<char>) -> bool {
    exists|i: int| 0 <= i < g.len() && g[i].name@ == name
}

/// `i` is the first gallery position holding `name`.
pub open spec fn first_named<T>(g: Seq<Chart<T>>, name: Seq<char>, i: int) -> bool {
    &&& 0 <= i < g.len()
    &&& g[i].name@ == name
    &&& forall|j: int| 0 <= j < i ==> g[j].name@ != name
}

/// The first gallery position holding `name` (meaningful when it is held).
pub open spec fn position_of<T>(g: Seq<Chart<T>>, name: Seq<char>) -> int {
    choose|i: int| first_named(g, name, i)
}

/// `i` is where a chart received at `unix` goes: after every newer one,
/// before the first that is not.
pub open spec fn slot_for<T>(g: Seq<Chart<T>>, unix: i64, i: int) -> bool {
    &&& 0 <= i <= g.len()
    &&& forall|j: int| 0 <= j < i ==> g[j].unix > unix
    &&& i < g.len() ==> g[i].unix <= unix
}

/// Where a chart received at `unix` goes.
pub open spec fn insert_slot<T>(g: Seq<Chart<T>>, unix: i64) -> int {
    choose|i: int| slot_for(g, unix, i)
}

proof fn lemma_first_named_unique<T>(g: Seq<Chart<T>>, name: Seq<char>, i: int)
    requires
        first_named(g, name, i),
    ensures
        position_of(g, name) == i,
{
    let k = position_of(g, name);
    assert(first_named(g, name, k));
    if k < i {
        assert(g[k].name@ != name);
    } else if k > i {
        assert(g[i].name@ != name);
    }
}

proof fn lemma_slot_unique<T>(g: Seq<Chart<T>>, unix: i64, i: int)
    requires
        slot_for(g, unix, i),
    ensures
        insert_slot(g, unix) == i,
{
    let k = insert_slot(g, unix);
    assert(slot_for(g, unix, k));
    if k < i {
        assert(g[k].unix > unix);
    } else if k > i {
        assert(g[i].unix > unix);
    }
}

/// The gallery and viewer after adding `c`: nothing changes for a name
/// already held; otherwise `c` goes in at [`insert_slot`], a viewer at or
/// below it moves down one to stay on its chart, and the gallery is cut back
/// to [`GALLERY_MAX`], the oldest going first.
pub open spec fn with_chart<T>(g: Seq<Chart<T>>, viewing: Option<usize>, c: Chart<T>) -> (Seq<
    Chart<T>,
>, Option<usize>) {
    if holds(g, c.name@) {
        (g, viewing)
    } else {
        let at = insert_slot(g, c.unix);
        let g2 = g.insert(at, c);
        let g3 = if g2.len() > GALLERY_MAX { g2.take(GALLERY_MAX as int) } else { g2 };
        let v2 = match viewing {
            Some(v) => if at <= v { Some((v + 1) as usize) } else { Some(v) },
            None => None,
        };
        (g3, v2)
    }
}

/// [`with_chart`] for each chart in turn.
pub open spec fn with_charts<T>(g: Seq<Chart<T>>, viewing: Option<usize>, cs: Seq<Chart<T>>) -> (Seq<
    Chart<T>,
>, Option<usize>)
    decreases cs.len(),
{
    if cs.len() == 0 {
        (g, viewing)
    } else {
        let (g1, v1) = with_charts(g, viewing, cs.drop_last());
        with_chart(g1, v1, cs.last())
    }
}

/// A viewer on a chart of `g` is, in `g2`, still on that chart wherever it
/// still points into the gallery; no viewer stays none.
pub open spec fn viewer_kept<T>(
    g: Seq<Chart<T>>,
    viewing: Option<usize>,
    g2: Seq<Chart<T>>,
    v2: Option<usize>,
) -> bool {
    match (viewing, v2) {
        (Some(v), Some(w)) => (v < g.len() && w < g2.len()) ==> g2[w as int] == g[v as int],
        (Some(_), None) => false,
        (None, x) => x is None,
    }
}

/// Whether adding the charts would move a viewer one past the largest index.
pub open spec fn viewer_bounded(viewing: Option<usize>, extra: nat) -> bool {
    viewing matches Some(v) ==> v + extra <= usize::MAX
}

/// Adding a chart keeps the gallery newest first with each name once, never
/// longer than [`GALLERY_MAX`], and a viewer above the insertion stays on the
/// chart it was on.
pub proof fn lemma_with_chart<T>(g: Seq<Chart<T>>, viewing: Option<usize>, c: Chart<T>)
    requires
        gallery_ok(g),
        g.len() <= GALLERY_MAX,
        viewer_bounded(viewing, 1),
    ensures
        gallery_ok(with_chart(g, viewing, c).0),
        with_chart(g, viewing, c).0.len() <= GALLERY_MAX,
        viewer_bounded(with_chart(g, viewing, c).1, 0),
        holds(with_chart(g, viewing, c).0, c.name@) || with_chart(g, viewing, c).0.len()
            == GALLERY_MAX,
        viewer_kept(g, viewing, with_chart(g, viewing, c).0, with_chart(g, viewing, c).1),
{
    if !holds(g, c.name@) {
        lemma_slot_exists(g, c.unix);
        let at = insert_slot(g, c.unix);
        let g2 = g.insert(at, c);
        assert forall|i: int, j: int| 0 <= i < j < g2.len() implies g2[i].unix >= g2[j].unix by {
            if j < at {
            } else if j == at {
                assert(g[i].unix > c.unix);
            } else if i < at {
                assert(g2[j] == g[j - 1]);
                if j - 1 >= at {
                    assert(g[at].unix <= c.unix);
                    assert(g[at].unix >= g[j - 1].unix);
                }
            } else if i == at {
                assert(g2[j] == g[j - 1]);
                assert(g[at].unix <= c.unix);
                if j - 1 > at {
                    assert(g[at].unix >= g[j - 1].unix);
                }
            } else {
                assert(g2[i] == g[i - 1]);
                assert(g2[j] == g[j - 1]);
            }
        }
        assert forall|i: int, j: int| 0 <= i < j < g2.len() implies g2[i].name@ != g2[j].name@ by {
            if j < at {
            } else if j == at {
                assert(g2[i] == g[i]);
            } else if i < at {
                assert(g2[j] == g[j - 1]);
            } else if i == at {
                assert(g2[j] == g[j - 1]);
            } else {
                assert(g2[i] == g[i - 1]);
                assert(g2[j] == g[j - 1]);
            }
        }
        assert(g2[at] == c);
        if g2.len() > GALLERY_MAX {
            let g3 = g2.take(GALLERY_MAX as int);
            assert forall|i: int, j: int| 0 <= i < j < g3.len() implies g3[i].unix >= g3[j].unix by {
                assert(g3[i] == g2[i]);
                assert(g3[j] == g2[j]);
            }
            assert forall|i: int, j: int| 0 <= i < j < g3.len() implies g3[i].name@
                != g3[j].name@ by {
                assert(g3[i] == g2[i]);
                assert(g3[j] == g2[j]);
            }
        } else {
            assert(holds(g2, c.name@));
        }
        if let Some(v) = viewing {
            if 0 <= v < g.len() {
                if at <= v {
                    assert(g2[v + 1] == g[v as int]);
                } else {
                    assert(g2[v as int] == g[v as int]);
                }
            }
        }
    }
}

/// Adding a chart keeps the viewer on the chart it was showing — at its new
/// index, one further down when the new chart went in above it — unless
/// the gallery was full and the viewed chart was the oldest, which the new
/// one pushes out; the viewer then points one past the end.
pub proof fn lemma_viewer_after_insert<T>(g: Seq<Chart<T>>, v: usize, c: Chart<T>)
    requires
        gallery_ok(g),
        g.len() <= GALLERY_MAX,
        v < g.len(),
    ensures
        ({
            let (g2, w) = with_chart(g, Some(v), c);
            &&& w is Some
            &&& w->0 < g2.len() ==> g2[w->0 as int] == g[v as int]
            &&& w->0 >= g2.len() <==> (!holds(g, c.name@) && g.len() == GALLERY_MAX && v == g.len()
                - 1 && insert_slot(g, c.unix) <= v)
            &&& w->0 >= g2.len() ==> w->0 == g2.len()
        }),
{
    if !holds(g, c.name@) {
        lemma_slot_exists(g, c.unix);
        let at = insert_slot(g, c.unix);
        let g1 = g.insert(at, c);
        if at <= v {
            assert(g1[v + 1] == g[v as int]);
        } else {
            assert(g1[v as int] == g[v as int]);
        }
    }
}

proof fn lemma_slot_exists<T>(g: Seq<Chart<T>>, unix: i64)
    ensures
        slot_for(g, unix, insert_slot(g, unix)),
{
    lemma_slot_below(g, unix, 0);
}

proof fn lemma_slot_below<T>(g: Seq<Chart<T>>, unix: i64, i: int)
    requires
        0 <= i <= g.len(),
        forall|j: int| 0 <= j < i ==> g[j].unix > unix,
    ensures
        exists|k: int| slot_for(g, unix, k),
    decreases g.len() - i,
{
    if i == g.len() || g[i].unix <= unix {
        assert(slot_for(g, unix, i));
    } else {
        lemma_slot_below(g, unix, i + 1);
    }
}

} // verus!

verus! {

/// The gallery of saved charts: newest first, each name once, at most
/// [`GALLERY_MAX`] of them.
pub struct Gallery<T> {
    charts: Vec<Chart<T>>,
}

impl<T> View for Gallery<T> {
    type V = Seq<Chart<T>>;

    closed spec fn view(&self) -> Seq<Chart<T>> {
        self.charts@
    }
}

impl<T> Gallery<T> {
    #[verifier::type_invariant]
    spec fn inv(self) -> bool {
        gallery_ok(self.charts@) && self.charts@.len() <= GALLERY_MAX
    }

    /// An empty gallery.
    pub fn new() -> (r: Self)
        ensures
            r@ == Seq::<Chart<T>>::empty(),
    {
        Gallery { charts: Vec::new() }
    }

    /// The charts, newest first; the gallery keeps its order, its names
    /// unique and its size within [`GALLERY_MAX`].
    pub fn charts(&self) -> (r: &Vec<Chart<T>>)
        ensures
            r@ == self@,
            gallery_ok(self@),
            self@.len() <= GALLERY_MAX,
    {
        proof {
            use_type_invariant(self);
        }
        &self.charts
    }

    /// How many charts are held.
    pub fn len(&self) -> (n: usize)
        ensures
            n == self@.len(),
            gallery_ok(self@),
            n <= GALLERY_MAX,
    {
        proof {
            use_type_invariant(self);
        }
        self.charts.len()
    }

    /// Put `c`, whose name is not held, at `at`, its place by time; the
    /// oldest goes when that makes one too many.
    fn insert_at(&mut self, at: usize, c: Chart<T>)
        requires
            slot_for(old(self)@, c.unix, at as int),
            !holds(old(self)@, c.name@),
        ensures
            final(self)@ == with_chart(old(self)@, None, c).0,
    {
        proof {
            use_type_invariant(&*self);
        }
        let ghost g = self@;
        let mut v: Vec<Chart<T>> = Vec::new();
        std::mem::swap(&mut v, &mut self.charts);
        proof {
            lemma_slot_unique(g, c.unix, at as int);
            lemma_with_chart(g, None, c);
        }
        v.insert(at, c);
        v.truncate(GALLERY_MAX);
        self.charts = v;
    }

    /// Take out the chart at `at`.
    fn remove_at(&mut self, at: usize)
        requires
            at < old(self)@.len(),
        ensures
            final(self)@ == old(self)@.remove(at as int),
    {
        proof {
            use_type_invariant(&*self);
        }
        let ghost g = self@;
        let mut v: Vec<Chart<T>> = Vec::new();
        std::mem::swap(&mut v, &mut self.charts);
        let _gone = v.remove(at);
        proof {
            assert forall|i: int, j: int|
                0 <= i < j < v@.len() implies v@[i].unix >= v@[j].unix && v@[i].name@
                != v@[j].name@ by {
                let i0 = if i < at { i } else { i + 1 };
                let j0 = if j < at { j } else { j + 1 };
                assert(v@[i] == g[i0]);
                assert(v@[j] == g[j0]);
            }
        }
        self.charts = v;
    }

    /// Give the chart at `at` its full-size picture.
    fn set_full(&mut self, at: usize, t: T)
        requires
            at < old(self)@.len(),
        ensures
            final(self)@ == old(self)@.update(at as int, Chart { full: Some(t), ..old(self)@[at as int] }),
    {
        proof {
            use_type_invariant(&*self);
        }
        let ghost g = self@;
        let mut v: Vec<Chart<T>> = Vec::new();
        std::mem::swap(&mut v, &mut self.charts);
        let c = v.remove(at);
        let updated = Chart { texture: c.texture, full: Some(t), name: c.name, size: c.size, unix: c.unix };
        v.insert(at, updated);
        proof {
            assert(v@ =~= g.update(at as int, Chart { full: v@[at as int].full, ..g[at as int] }));
            assert forall|i: int, j: int|
                0 <= i < j < v@.len() implies v@[i].unix >= v@[j].unix && v@[i].name@
                != v@[j].name@ by {
                assert(i != at ==> v@[i] == g[i]);
                assert(j != at ==> v@[j] == g[j]);
            }
        }
        self.charts = v;
    }
}

/// Client-side weather-fax state: the chart being received and the gallery
/// of saved ones. `T` is whatever the panel draws a picture with.
pub struct WefaxUi<T> {
    /// The chart being received.
    pub live: LiveChart,
    /// The live chart as the panel last drew it.
    pub live_tex: Option<T>,
    /// Saved charts, newest first.
    pub gallery: Gallery<T>,
    /// Whether the engine's store has been listed this session.
    pub listed: bool,
    /// How many charts the store holds altogether.
    pub total: u32,
    /// True while a listing page is outstanding.
    pub page_pending: bool,
    /// Name of the chart whose full size has been asked for.
    pub full_asked: Option<String>,
    /// The answer to that ask was empty — the store no longer has it.
    pub full_gone: bool,
    /// The chart that has just finished arriving, held until the engine names
    /// the file it went into: its picture and its PNG bytes.
    pub fresh: Option<(T, Vec<u8>)>,
    /// Bytes of the chart last fetched or received, and its name.
    pub full_png: Option<(String, Vec<u8>)>,
    /// Where charts are being saved.
    pub dir: String,
    /// Which gallery entry is open full-size, if any.
    pub viewing: Option<usize>,
    /// Name of the chart whose DELETE has been pressed once.
    pub confirm_delete: Option<String>,
    /// Whether the live view keeps the newest rows in sight; the operator
    /// scrolling up turns it off, scrolling back to the bottom on again.
    pub follow: bool,
}

/// `n` is `Some(name)`.
pub open spec fn names_it(n: Option<String>, name: Seq<char>) -> bool {
    n matches Some(s) && s@ == name
}

/// The viewer after the chart at `at` left a gallery of `len`: it follows its
/// chart up when one above it went, lands on the next-older one when its own
/// went, and closes when nothing is left there.
pub open spec fn viewer_after_delete(viewing: Option<usize>, at: int, len: int) -> Option<usize> {
    match viewing {
        None => None,
        Some(v) => {
            let next = if at < v { v - 1 } else { v as int };
            if next < len - 1 {
                Some(next as usize)
            } else {
                None
            }
        },
    }
}

/// The viewer moves with the gallery when a chart leaves it: deleting some
/// other chart keeps it on the chart it was showing, and deleting the one on
/// screen leaves it on the next-older chart, the one OLDER would have shown,
/// or closes it when there is none.
pub proof fn lemma_viewer_follows_delete<T>(g: Seq<Chart<T>>, v: usize, at: int)
    requires
        v < g.len(),
        0 <= at < g.len(),
    ensures
        at != v ==> (viewer_after_delete(Some(v), at, g.len() as int) matches Some(w) && g.remove(
            at,
        )[w as int] == g[v as int]),
        at == v && v + 1 < g.len() ==> viewer_after_delete(Some(v), at, g.len() as int) == Some(v)
            && g.remove(at)[v as int] == g[v + 1],
        at == v && v + 1 == g.len() ==> viewer_after_delete(Some(v), at, g.len() as int) is None,
{
}

impl<T> WefaxUi<T> {
    /// The live chart as a value.
    pub open spec fn chart(&self) -> LiveView {
        self.live.view()
    }

    /// Nothing but the gallery, the viewer and the fields a deletion or an
    /// addition touches differ between `a` and `b`.
    pub open spec fn same_live(a: &Self, b: &Self) -> bool {
        &&& a.chart() == b.chart()
        &&& a.live_tex == b.live_tex
        &&& a.listed == b.listed
        &&& a.page_pending == b.page_pending
        &&& a.dir == b.dir
        &&& a.follow == b.follow
    }

    /// Nothing but the live chart and its picture differ between `a` and
    /// `b`.
    pub open spec fn same_store(a: &Self, b: &Self) -> bool {
        &&& a.gallery@ == b.gallery@
        &&& a.listed == b.listed
        &&& a.total == b.total
        &&& a.page_pending == b.page_pending
        &&& a.full_asked == b.full_asked
        &&& a.full_gone == b.full_gone
        &&& a.fresh == b.fresh
        &&& a.full_png == b.full_png
        &&& a.dir == b.dir
        &&& a.viewing == b.viewing
        &&& a.confirm_delete == b.confirm_delete
        &&& a.follow == b.follow
    }

    /// Empty and following: no chart, no gallery, nothing asked for.
    pub fn new() -> (r: Self)
        ensures
            r.chart() == (LiveView { live: Seq::empty(), w: 0, h: 0, id: 0, dirty: false }),
            r.live_tex is None,
            r.gallery@.len() == 0,
            !r.listed,
            r.total == 0,
            !r.page_pending,
            r.full_asked is None,
            !r.full_gone,
            r.fresh is None,
            r.full_png is None,
            r.dir@ == Seq::<char>::empty(),
            r.viewing is None,
            r.confirm_delete is None,
            r.follow,
    {
        WefaxUi {
            live: LiveChart::new(),
            live_tex: None,
            gallery: Gallery::new(),
            listed: false,
            total: 0,
            page_pending: false,
            full_asked: None,
            full_gone: false,
            fresh: None,
            full_png: None,
            dir: String::new(),
            viewing: None,
            confirm_delete: None,
            follow: true,
        }
    }

}

impl<T> Default for WefaxUi<T> {
    /// Empty and following; see [`WefaxUi::new`].
    fn default() -> (r: Self)
        ensures
            r.chart() == (LiveView { live: Seq::empty(), w: 0, h: 0, id: 0, dirty: false }),
            r.live_tex is None,
            r.gallery@.len() == 0,
            !r.listed,
            r.total == 0,
            !r.page_pending,
            r.full_asked is None,
            !r.full_gone,
            r.fresh is None,
            r.full_png is None,
            r.dir@ == Seq::<char>::empty(),
            r.viewing is None,
            r.confirm_delete is None,
            r.follow,
    {
        WefaxUi::new()
    }
}

impl<T> WefaxUi<T> {
    /// Adopt a freshly decoded scan line; see [`after_line`].
    pub fn push_line(&mut self, image_id: u32, y: u16, gray: &[u8])
        ensures
            final(self).chart() == after_line(old(self).chart(), image_id, y, gray@),
            final(self).chart().h <= MAX_H,
            (y == 0 && 0 < gray@.len() <= MAX_W) ==> final(self).chart().h == 1,
            (y == 0 && 0 < gray@.len() <= MAX_W) ==> final(self).chart().w == gray@.len(),
            (y == 0 && 0 < gray@.len() <= MAX_W) ==> final(self).chart().live == gray@,
            final(self).live_tex == old(self).live_tex,
            Self::same_store(&*old(self), &*final(self)),
    {
        self.live.push_line(image_id, y, gray);
    }

    /// Width and rows received for the chart in progress.
    pub fn live_size(&self) -> (r: (u16, u16))
        ensures
            r == (self.chart().w, self.chart().h),
            r.1 as int <= MAX_H && r.0 as int <= MAX_W,
    {
        self.live.size()
    }

    /// The chart in progress, one byte a pixel, top row first.
    pub fn live_pixels(&self) -> (r: &Vec<u8>)
        ensures
            r@ == self.chart().live,
            r@.len() == self.chart().w as int * self.chart().h as int,
    {
        self.live.pixels()
    }

    /// Whether any row of a chart has arrived.
    pub fn has_live(&self) -> (r: bool)
        ensures
            r == (self.chart().h > 0),
    {
        self.live.size().1 > 0
    }

    /// Whether rows have arrived since the live chart was last drawn.
    pub fn live_dirty(&self) -> (r: bool)
        ensures
            r == self.chart().dirty,
    {
        self.live.is_dirty()
    }

    /// The live chart has been drawn as `tex`.
    pub fn set_live_tex(&mut self, tex: T)
        ensures
            final(self).chart() == (LiveView { dirty: false, ..old(self).chart() }),
            final(self).live_tex == Some(tex),
            Self::same_store(&*old(self), &*final(self)),
    {
        self.live.mark_shown();
        self.live_tex = Some(tex);
    }

    /// Throw the live chart away — the operator restarting, or a completed one
    /// having moved to the gallery.
    pub fn clear_live(&mut self)
        ensures
            final(self).chart() == (LiveView {
                live: Seq::empty(),
                h: 0,
                dirty: false,
                ..old(self).chart()
            }),
            final(self).live_tex is None,
            Self::same_store(&*old(self), &*final(self)),
    {
        self.live.clear();
        self.live_tex = None;
    }

    /// Hold a chart that has just finished arriving until the engine names the
    /// file it went into; `None` when it did not decode.
    pub fn hold_fresh(&mut self, fresh: Option<(T, Vec<u8>)>)
        ensures
            final(self).fresh == fresh,
            Self::same_live(&*old(self), &*final(self)),
            final(self).gallery@ == old(self).gallery@,
            final(self).total == old(self).total,
            final(self).full_asked == old(self).full_asked,
            final(self).full_gone == old(self).full_gone,
            final(self).full_png == old(self).full_png,
            final(self).viewing == old(self).viewing,
            final(self).confirm_delete == old(self).confirm_delete,
    {
        self.fresh = fresh;
    }

    /// Whether more of the store can still be paged in, or this client is
    /// holding as many thumbnails as it will.
    pub fn can_page(&self) -> (r: bool)
        ensures
            r == (self.gallery@.len() < GALLERY_MAX),
    {
        self.gallery.len() < GALLERY_MAX
    }

    /// Nothing but the paging flags differ between `a` and `b`.
    pub open spec fn same_but_paging(a: &Self, b: &Self) -> bool {
        &&& a.chart() == b.chart()
        &&& a.live_tex == b.live_tex
        &&& a.gallery@ == b.gallery@
        &&& a.total == b.total
        &&& a.full_asked == b.full_asked
        &&& a.full_gone == b.full_gone
        &&& a.fresh == b.fresh
        &&& a.full_png == b.full_png
        &&& a.dir == b.dir
        &&& a.viewing == b.viewing
        &&& a.confirm_delete == b.confirm_delete
        &&& a.follow == b.follow
    }

    /// How many charts the store holds beyond the ones in the gallery.
    pub fn older_in_store(&self) -> (r: u32)
        ensures
            r == if self.total as int > self.gallery@.len() {
                self.total - self.gallery@.len()
            } else {
                0
            },
    {
        let n: usize = self.gallery.len();
        if (self.total as usize) > n {
            self.total - (n as u32)
        } else {
            0
        }
    }

    /// The panel opening: the store is listed once a session, from its
    /// first chart. Returns the offset of the page to ask the engine for,
    /// when one is due.
    pub fn first_listing(&mut self) -> (r: Option<u32>)
        ensures
            r == if old(self).listed {
                None
            } else {
                Some(0u32)
            },
            final(self).listed,
            final(self).page_pending == (old(self).page_pending || !old(self).listed),
            Self::same_but_paging(&*old(self), &*final(self)),
    {
        if self.listed {
            return None;
        }
        self.listed = true;
        self.page_pending = true;
        Some(0)
    }

    /// The operator asking for more of the store: a page from the end of
    /// the gallery, unless one is already on its way, the store has no more,
    /// or the gallery holds as many thumbnails as it will. Returns the
    /// offset of the page to ask the engine for, when one is due.
    pub fn ask_more(&mut self) -> (r: Option<u32>)
        ensures
            ({
                let due = !old(self).page_pending && old(self).total as int > old(
                    self,
                ).gallery@.len() && old(self).gallery@.len() < GALLERY_MAX;
                &&& r == if due {
                    Some(old(self).gallery@.len() as u32)
                } else {
                    None
                }
                &&& final(self).page_pending == (old(self).page_pending || due)
            }),
            final(self).listed == old(self).listed,
            Self::same_but_paging(&*old(self), &*final(self)),
    {
        if self.page_pending || self.older_in_store() == 0 || !self.can_page() {
            return None;
        }
        self.page_pending = true;
        Some(self.gallery.len() as u32)
    }
}

} // verus!

verus! {

impl<T> WefaxUi<T> {
    /// The first gallery position holding `name`, if any.
    fn find_named(&self, name: &String) -> (r: Option<usize>)
        ensures
            r is None <==> !holds(self.gallery@, name@),
            r matches Some(i) ==> first_named(self.gallery@, name@, i as int),
    {
        let mut i: usize = 0;
        while i < self.gallery.len()
            invariant
                i <= self.gallery@.len(),
                forall|j: int| 0 <= j < i ==> self.gallery@[j].name@ != name@,
            decreases self.gallery@.len() - i,
        {
            if self.gallery.charts()[i].name == *name {
                return Some(i);
            }
            i = i + 1;
        }
        None
    }

    /// Add a gallery entry in received order, skipping one already held; see
    /// [`with_chart`].
    pub fn insert_entry(&mut self, chart: Chart<T>)
        requires
            viewer_bounded(old(self).viewing, 1),
        ensures
            (final(self).gallery@, final(self).viewing) == with_chart(
                old(self).gallery@,
                old(self).viewing,
                chart,
            ),
            Self::same_live(&*old(self), &*final(self)),
            final(self).total == old(self).total,
            final(self).full_asked == old(self).full_asked,
            final(self).full_gone == old(self).full_gone,
            final(self).fresh == old(self).fresh,
            final(self).full_png == old(self).full_png,
            final(self).confirm_delete == old(self).confirm_delete,
    {
        proof {
            use_type_invariant(&self.gallery);
            lemma_with_chart(self.gallery@, self.viewing, chart);
        }
        if let Some(i) = self.find_named(&chart.name) {
            return;
        }
        let ghost g = self.gallery@;
        let mut at: usize = 0;
        while at < self.gallery.len() && self.gallery.charts()[at].unix > chart.unix
            invariant
                self.gallery@ == g,
                at <= g.len(),
                forall|j: int| 0 <= j < at ==> g[j].unix > chart.unix,
            decreases g.len() - at,
        {
            at = at + 1;
        }
        proof {
            lemma_slot_unique(g, chart.unix, at as int);
        }
        self.gallery.insert_at(at, chart);
        if let Some(v) = self.viewing {
            if at <= v {
                self.viewing = Some(v + 1);
            }
        }
    }

    /// One page of the engine's chart store: its size, where it lives, and
    /// the charts on the page, each added as [`insert_entry`](Self::insert_entry)
    /// adds it.
    pub fn on_listing(&mut self, total: u32, dir: String, charts: Vec<Chart<T>>)
        requires
            viewer_bounded(old(self).viewing, charts@.len()),
        ensures
            (final(self).gallery@, final(self).viewing) == with_charts(
                old(self).gallery@,
                old(self).viewing,
                charts@,
            ),
            !final(self).page_pending,
            final(self).total == total,
            final(self).dir == dir,
            final(self).chart() == old(self).chart(),
            final(self).live_tex == old(self).live_tex,
            final(self).listed == old(self).listed,
            final(self).follow == old(self).follow,
            final(self).full_asked == old(self).full_asked,
            final(self).full_gone == old(self).full_gone,
            final(self).fresh == old(self).fresh,
            final(self).full_png == old(self).full_png,
            final(self).confirm_delete == old(self).confirm_delete,
    {
        self.page_pending = false;
        self.total = total;
        self.dir = dir;
        let ghost g0 = self.gallery@;
        let ghost v0 = self.viewing;
        let ghost cs = charts@;
        let count: usize = charts.len();
        let mut rest = charts;
        let mut done: usize = 0;
        proof {
            assert(cs.take(0) =~= Seq::<Chart<T>>::empty());
        }
        while rest.len() > 0
            invariant
                done + rest@.len() == cs.len(),
                count == cs.len(),
                rest@ =~= cs.skip(done as int),
                (self.gallery@, self.viewing) == with_charts(g0, v0, cs.take(done as int)),
                viewer_bounded(self.viewing, rest@.len()),
                !self.page_pending,
                self.total == total,
                self.dir == dir,
                self.chart() == old(self).chart(),
                self.live_tex == old(self).live_tex,
                self.listed == old(self).listed,
                self.follow == old(self).follow,
                self.full_asked == old(self).full_asked,
                self.full_gone == old(self).full_gone,
                self.fresh == old(self).fresh,
                self.full_png == old(self).full_png,
                self.confirm_delete == old(self).confirm_delete,
            decreases rest@.len(),
        {
            let c = rest.remove(0);
            proof {
                assert(cs.take(done + 1).drop_last() =~= cs.take(done as int));
                assert(cs.take(done + 1).last() == c);
                use_type_invariant(&self.gallery);
                lemma_with_chart(self.gallery@, self.viewing, c);
            }
            self.insert_entry(c);
            done = done + 1;
        }
        assert(cs.take(cs.len() as int) =~= cs);
    }
}

} // verus!

verus! {

impl<T> WefaxUi<T> {
    /// A chart the engine has just stored under `name`, with its thumbnail
    /// when that decoded (its `full` is not read): the chart held since it
    /// finished arriving becomes its full-size picture and its PNG bytes the ones to save, the store
    /// counts one more, and the thumbnail joins the gallery as
    /// [`insert_entry`](Self::insert_entry) adds it.
    pub fn on_saved(&mut self, name: String, thumb: Option<Chart<T>>)
        requires
            old(self).total < u32::MAX,
            viewer_bounded(old(self).viewing, 1),
            thumb matches Some(c) ==> c.name@ == name@,
        ensures
            final(self).fresh is None,
            final(self).full_png == match old(self).fresh {
                Some((_, png)) => Some((name, png)),
                None => old(self).full_png,
            },
            final(self).total == old(self).total + 1,
            match thumb {
                None => final(self).gallery@ == old(self).gallery@ && final(self).viewing == old(
                    self,
                ).viewing,
                Some(c) => (final(self).gallery@, final(self).viewing) == with_chart(
                    old(self).gallery@,
                    old(self).viewing,
                    Chart {
                        full: match old(self).fresh {
                            Some((t, _)) => Some(t),
                            None => None,
                        },
                        ..c
                    },
                ),
            },
            Self::same_live(&*old(self), &*final(self)),
            final(self).full_asked == old(self).full_asked,
            final(self).full_gone == old(self).full_gone,
            final(self).confirm_delete == old(self).confirm_delete,
    {
        let fresh = self.fresh.take();
        let full: Option<T> = match fresh {
            Some((tex, png)) => {
                self.full_png = Some((name, png));
                Some(tex)
            },
            None => None,
        };
        self.total = self.total + 1;
        if let Some(c) = thumb {
            let chart = Chart {
                texture: c.texture,
                full: full,
                name: c.name,
                size: c.size,
                unix: c.unix,
            };
            self.insert_entry(chart);
        }
    }

    /// A chart is no longer in the store: this screen's delete, or another's.
    ///
    /// Nothing changes for a name the gallery does not hold — this client
    /// cannot tell what happened outside its window on the store. Otherwise
    /// the chart leaves the gallery, the store counts one fewer, its bytes and
    /// an armed DELETE for it are dropped, and the viewer moves as
    /// [`viewer_after_delete`] says; deleting the chart on screen forgets the
    /// full-size request made for it.
    pub fn on_deleted(&mut self, name: &str)
        ensures
            Self::same_live(&*old(self), &*final(self)),
            final(self).fresh == old(self).fresh,
            !holds(old(self).gallery@, name@) ==> {
                &&& final(self).gallery@ == old(self).gallery@
                &&& final(self).total == old(self).total
                &&& final(self).full_png == old(self).full_png
                &&& final(self).confirm_delete == old(self).confirm_delete
                &&& final(self).viewing == old(self).viewing
                &&& final(self).full_asked == old(self).full_asked
                &&& final(self).full_gone == old(self).full_gone
            },
            holds(old(self).gallery@, name@) ==> {
                let at = position_of(old(self).gallery@, name@);
                &&& final(self).gallery@ == old(self).gallery@.remove(at)
                &&& final(self).total == if old(self).total == 0 {
                    0
                } else {
                    (old(self).total - 1) as u32
                }
                &&& final(self).full_png == if old(self).full_png matches Some((n, _)) && n@
                    == name@ {
                    None
                } else {
                    old(self).full_png
                }
                &&& final(self).confirm_delete == if names_it(old(self).confirm_delete, name@) {
                    None
                } else {
                    old(self).confirm_delete
                }
                &&& final(self).viewing == viewer_after_delete(
                    old(self).viewing,
                    at,
                    old(self).gallery@.len() as int,
                )
                &&& if old(self).viewing == Some(at as usize) {
                    final(self).full_asked is None && !final(self).full_gone
                } else {
                    final(self).full_asked == old(self).full_asked && final(self).full_gone == old(
                        self,
                    ).full_gone
                }
            },
    {
        let key: String = name.to_owned();
        let at = match self.find_named(&key) {
            Some(i) => i,
            None => return ,
        };
        proof {
            lemma_first_named_unique(self.gallery@, name@, at as int);
        }
        self.gallery.remove_at(at);
        self.total = if self.total == 0 { 0 } else { self.total - 1 };
        let drop_png = match &self.full_png {
            Some((n, _)) => *n == key,
            None => false,
        };
        if drop_png {
            self.full_png = None;
        }
        let disarm = match &self.confirm_delete {
            Some(n) => *n == key,
            None => false,
        };
        if disarm {
            self.confirm_delete = None;
        }
        if let Some(v) = self.viewing {
            let next: usize = if at < v { v - 1 } else { v };
            self.viewing = if next < self.gallery.len() { Some(next) } else { None };
            if at == v {
                self.full_asked = None;
                self.full_gone = false;
            }
        }
    }

    /// A fetched full-size chart under `name`, as the engine sent its bytes.
    ///
    /// When they decode, they become the ones to save and their raster is
    /// handed back, for the panel to make the chart's full-size picture from
    /// and give it with [`attach_full`](Self::attach_full). An empty or
    /// undecodable answer to the outstanding request marks the chart gone.
    pub fn on_file(&mut self, name: &str, png: Vec<u8>) -> (r: Option<(Vec<u8>, u16, u16)>)
        ensures
            match r {
                None => gray_decoded(png@) is None,
                Some((p, w, h)) => gray_decoded(png@) == Some((p@, w, h)),
            },
            Self::same_live(&*old(self), &*final(self)),
            final(self).gallery@ == old(self).gallery@,
            final(self).fresh == old(self).fresh,
            final(self).total == old(self).total,
            final(self).viewing == old(self).viewing,
            final(self).full_asked == old(self).full_asked,
            final(self).confirm_delete == old(self).confirm_delete,
            r is None ==> final(self).full_png == old(self).full_png && final(self).full_gone == (
            old(self).full_gone || names_it(old(self).full_asked, name@)),
            r is Some ==> final(self).full_gone == old(self).full_gone,
            r is Some ==> (final(self).full_png matches Some((n, b)) && n@ == name@ && b@ == png@),
    {
        let key: String = name.to_owned();
        let decoded = decode_gray(png.as_slice());
        match decoded {
            None => {
                let asked = match &self.full_asked {
                    Some(n) => *n == key,
                    None => false,
                };
                if asked {
                    self.full_gone = true;
                }
                None
            },
            Some(raster) => {
                self.full_png = Some((key, png));
                Some(raster)
            },
        }
    }

    /// The full-size picture made from what [`on_file`](Self::on_file)
    /// handed back: the first gallery chart named `name` takes it.
    pub fn attach_full(&mut self, name: &str, full: T)
        ensures
            Self::same_live(&*old(self), &*final(self)),
            Self::same_but_gallery(&*old(self), &*final(self)),
            if holds(old(self).gallery@, name@) {
                let at = position_of(old(self).gallery@, name@);
                final(self).gallery@ == old(self).gallery@.update(
                    at,
                    Chart { full: Some(full), ..old(self).gallery@[at] },
                )
            } else {
                final(self).gallery@ == old(self).gallery@
            },
    {
        let key: String = name.to_owned();
        if let Some(at) = self.find_named(&key) {
            proof {
                lemma_first_named_unique(self.gallery@, name@, at as int);
            }
            self.gallery.set_full(at, full);
        }
    }

    /// Whether a listed chart's thumbnail goes into the gallery: not when its
    /// name is already held — a listing and an arrival notice can name the
    /// same chart — and not when it does not decode. When it does go in, its
    /// raster is handed back for the panel to make the thumbnail from, and
    /// the chart then goes to [`insert_entry`](Self::insert_entry).
    pub fn thumb_to_add(&self, name: &String, thumb: &[u8]) -> (r: Option<(Vec<u8>, u16, u16)>)
        ensures
            holds(self.gallery@, name@) ==> r is None,
            !holds(self.gallery@, name@) ==> match r {
                None => gray_decoded(thumb@) is None,
                Some((p, w, h)) => gray_decoded(thumb@) == Some((p@, w, h)),
            },
    {
        if self.find_named(name).is_some() {
            return None;
        }
        decode_gray(thumb)
    }

    /// Nothing but the gallery differs between `a` and `b`, the live chart
    /// aside.
    pub open spec fn same_but_gallery(a: &Self, b: &Self) -> bool {
        &&& a.total == b.total
        &&& a.full_asked == b.full_asked
        &&& a.full_gone == b.full_gone
        &&& a.fresh == b.fresh
        &&& a.full_png == b.full_png
        &&& a.viewing == b.viewing
        &&& a.confirm_delete == b.confirm_delete
    }
}

} // verus!

verus! {

/// What `image::load_from_memory` followed by `DynamicImage::to_luma8` makes
/// of a file's bytes: one byte a pixel and the width and height, or nothing
/// when the bytes do not decode.
pub uninterp spec fn luma_decoded(bytes: Seq<u8>) -> Option<(Seq<u8>, u32, u32)>;

/// `image::load_from_memory` and `DynamicImage::to_luma8`: the decoded
/// picture as [`luma_decoded`] names it, or `None` on a decoding error. The
/// buffer is sized to the picture, one byte a pixel.
#[verifier::external_body]
fn load_luma8(bytes: &[u8]) -> (r: Option<(Vec<u8>, u32, u32)>)
    ensures
        match r {
            None => luma_decoded(bytes@) is None,
            Some((px, w, h)) => luma_decoded(bytes@) == Some((px@, w, h)) && px@.len() == w * h,
        },
{
    match image::load_from_memory(bytes) {
        Ok(img) => {
            let luma = img.to_luma8();
            let (w, h) = (luma.width(), luma.height());
            Some((luma.into_raw(), w, h))
        },
        Err(_) => None,
    }
}

/// Whether a decoded chart's size is one the panel takes: neither side zero
/// nor more than four times the largest live chart.
pub open spec fn chart_size_ok(w: u32, h: u32) -> bool {
    w != 0 && h != 0 && w <= MAX_W * 4 && h <= MAX_H * 4
}

/// A PNG's single-channel raster and size, when it decodes to a size
/// [`chart_size_ok`] takes.
pub open spec fn gray_decoded(png: Seq<u8>) -> Option<(Seq<u8>, u16, u16)> {
    match luma_decoded(png) {
        None => None,
        Some((px, w, h)) => if chart_size_ok(w, h) {
            Some((px, w as u16, h as u16))
        } else {
            None
        },
    }
}

/// Decode a PNG to a single-channel raster plus its size; `None` when it
/// does not decode or its size is not one [`chart_size_ok`] takes.
pub fn decode_gray(png: &[u8]) -> (r: Option<(Vec<u8>, u16, u16)>)
    ensures
        match r {
            None => gray_decoded(png@) is None,
            Some((p, w, h)) => gray_decoded(png@) == Some((p@, w, h)) && p@.len() == w * h,
        },
        match luma_decoded(png@) {
            None => r is None,
            Some((px, w, h)) => if chart_size_ok(w, h) {
                r matches Some((p, w2, h2)) && p@ == px && w2 == w && h2 == h && p@.len() == w * h
            } else {
                r is None
            },
        },
{
    match load_luma8(png) {
        None => None,
        Some((px, w, h)) => {
            if w == 0 || h == 0 || w as usize > MAX_W * 4 || h as usize > MAX_H * 4 {
                None
            } else {
                Some((px, w as u16, h as u16))
            }
        },
    }
}

/// A raster exactly `w` × `h`: the pixels of `gray`, padded with black where
/// it is short.
pub open spec fn raster_of(gray: Seq<u8>, w: nat, h: nat) -> Seq<u8> {
    Seq::new(w * h, |i: int| if i < gray.len() { gray[i] } else { 0u8 })
}

/// The pixels of a `w` × `h` single-channel picture from `gray`, padded with
/// black rather than failing when the buffer is short.
pub fn gray_raster(gray: &[u8], w: u16, h: u16) -> (r: Vec<u8>)
    ensures
        r@ == raster_of(gray@, w as nat, h as nat),
{
    assert(w as int * h as int <= 65535 * 65535) by (nonlinear_arith)
        requires
            w <= 65535,
            h <= 65535,
    ;
    let n: usize = w as usize * h as usize;
    let mut px: Vec<u8> = Vec::new();
    let mut i: usize = 0;
    while i < n
        invariant
            n == w as nat * h as nat,
            i <= n,
            px@ =~= raster_of(gray@, w as nat, h as nat).take(i as int),
        decreases n - i,
    {
        let v: u8 = if i < gray.len() { gray[i] } else { 0 };
        px.push(v);
        i = i + 1;
    }
    assert(raster_of(gray@, w as nat, h as nat).take(n as int) =~= raster_of(
        gray@,
        w as nat,
        h as nat,
    ));
    px
}

} // verus!
