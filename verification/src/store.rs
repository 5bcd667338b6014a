//! What the font holds for each glyph, fetched once.
//!
//! Reading a glyph from the font is costly, and a buffer shows the same
//! glyph many times. The store keeps what was read under the glyph's
//! number, so that every glyph of one number gets the very same data.

use crate::collision::Polyline;
use crate::geometry::{Path, Point, Segment};
use crate::glyph::{
    advance_sum, lemma_advance_sum_depends_on_advances, set_total_advance, totals_current,
    totals_fit, GlyphExtents, GulzarGlyph,
};
use std::collections::BTreeMap;
use vstd::prelude::*;

verus! {

broadcast use vstd::std_specs::btree::group_btree_axioms;

/// What the font holds for one glyph.
#[derive(Debug)]
pub struct FontGlyph {
    /// The glyph's name.
    pub name: String,
    /// The glyph's box.
    pub extents: GlyphExtents,
    /// The glyph's outline.
    pub paths: Vec<Path>,
    /// The outline flattened to closed polylines.
    pub contours: Vec<Polyline>,
}

/// The segments of each path.
pub open spec fn path_shapes(paths: Seq<Path>) -> Seq<Seq<Segment>> {
    Seq::new(paths.len(), |i: int| paths[i].segments@)
}

/// The corners of each contour.
pub open spec fn contour_shapes(contours: Seq<Polyline>) -> Seq<Seq<Point>> {
    Seq::new(contours.len(), |i: int| contours[i].points@)
}

/// What a glyph looks like: name, box, outline and contours.
pub struct Likeness {
    pub name: Seq<char>,
    pub extents: GlyphExtents,
    pub paths: Seq<Seq<Segment>>,
    pub contours: Seq<Seq<Point>>,
}

impl FontGlyph {
    /// What the glyph looks like.
    pub open spec fn likeness(&self) -> Likeness {
        Likeness {
            name: self.name@,
            extents: self.extents,
            paths: path_shapes(self.paths@),
            contours: contour_shapes(self.contours@),
        }
    }
}

impl GulzarGlyph {
    /// What the glyph looks like.
    pub open spec fn likeness(&self) -> Likeness {
        Likeness {
            name: self.name@,
            extents: self.extents,
            paths: path_shapes(self.paths@),
            contours: contour_shapes(self.contours@),
        }
    }
}

/// Copies a list of segments.
fn copy_segments(segments: &Vec<Segment>) -> (copy: Vec<Segment>)
    ensures
        copy@ == segments@,
{
    let mut copy: Vec<Segment> = Vec::new();
    let mut i: usize = 0;
    while i < segments.len()
        invariant
            i <= segments@.len(),
            copy@ == segments@.take(i as int),
        decreases segments@.len() - i,
    {
        copy.push(segments[i]);
        assert(segments@.take(i + 1) == segments@.take(i as int).push(segments@[i as int]));
        i = i + 1;
    }
    assert(segments@.take(i as int) == segments@);
    copy
}

/// Copies a list of points.
fn copy_points(points: &Vec<Point>) -> (copy: Vec<Point>)
    ensures
        copy@ == points@,
{
    let mut copy: Vec<Point> = Vec::new();
    let mut i: usize = 0;
    while i < points.len()
        invariant
            i <= points@.len(),
            copy@ == points@.take(i as int),
        decreases points@.len() - i,
    {
        copy.push(points[i]);
        assert(points@.take(i + 1) == points@.take(i as int).push(points@[i as int]));
        i = i + 1;
    }
    assert(points@.take(i as int) == points@);
    copy
}

/// Copies an outline.
pub fn copy_paths(paths: &Vec<Path>) -> (copy: Vec<Path>)
    ensures
        path_shapes(copy@) == path_shapes(paths@),
{
    let mut copy: Vec<Path> = Vec::new();
    let mut i: usize = 0;
    while i < paths.len()
        invariant
            i <= paths@.len(),
            copy@.len() == i,
            forall|k: int| 0 <= k < i ==> (#[trigger] copy@[k]).segments@ == paths@[k].segments@,
        decreases paths@.len() - i,
    {
        copy.push(Path { segments: copy_segments(&paths[i].segments) });
        i = i + 1;
    }
    assert(path_shapes(copy@) =~= path_shapes(paths@));
    copy
}

/// Copies a list of contours.
pub fn copy_contours(contours: &Vec<Polyline>) -> (copy: Vec<Polyline>)
    ensures
        contour_shapes(copy@) == contour_shapes(contours@),
{
    let mut copy: Vec<Polyline> = Vec::new();
    let mut i: usize = 0;
    while i < contours.len()
        invariant
            i <= contours@.len(),
            copy@.len() == i,
            forall|k: int| 0 <= k < i ==> (#[trigger] copy@[k]).points@ == contours@[k].points@,
        decreases contours@.len() - i,
    {
        copy.push(Polyline { points: copy_points(&contours[i].points) });
        i = i + 1;
    }
    assert(contour_shapes(copy@) =~= contour_shapes(contours@));
    copy
}

/// Glyphs of the font by their numbers, as far as they have been read.
pub struct OutlineStore {
    glyphs: BTreeMap<u32, FontGlyph>,
}

impl OutlineStore {
    /// What the store holds: the likeness of each glyph that was read.
    pub closed spec fn view(&self) -> Map<u32, Likeness> {
        self.glyphs@.map_values(|g: FontGlyph| g.likeness())
    }

    /// An empty store.
    pub fn new() -> (store: OutlineStore)
        ensures
            store@ == Map::<u32, Likeness>::empty(),
    {
        let store = OutlineStore { glyphs: BTreeMap::new() };
        assert(store@ =~= Map::<u32, Likeness>::empty());
        store
    }

    /// Tells whether the glyph has been read.
    pub fn holds(&self, glyph: u32) -> (held: bool)
        ensures
            held == self@.contains_key(glyph),
    {
        self.glyphs.contains_key(&glyph)
    }

    /// Keeps what was read for a glyph, unless the store holds the glyph
    /// already: what was kept first stays.
    pub fn keep(&mut self, glyph: u32, data: FontGlyph)
        ensures
            old(self)@.contains_key(glyph) ==> final(self)@ == old(self)@,
            !old(self)@.contains_key(glyph) ==> final(self)@ == old(self)@.insert(
                glyph,
                data.likeness(),
            ),
    {
        if !self.glyphs.contains_key(&glyph) {
            let ghost likeness = data.likeness();
            self.glyphs.insert(glyph, data);
            assert(self@ =~= old(self)@.insert(glyph, likeness));
        }
    }

    /// Gives the glyph at place `i` of the buffer what the store holds
    /// for its number: name, box, outline and contours. Nothing else of
    /// the glyph changes. A glyph whose number the store does not hold
    /// stays as it is.
    pub fn dress(&self, buffer: &mut Vec<GulzarGlyph>, i: usize) -> (dressed: bool)
        requires
            i < old(buffer)@.len(),
        ensures
            final(buffer)@.len() == old(buffer)@.len(),
            forall|k: int|
                0 <= k < old(buffer)@.len() && k != i ==> #[trigger] final(buffer)@[k] == old(
                    buffer,
                )@[k],
            dressed == self@.contains_key(old(buffer)@[i as int].codepoint),
            !dressed ==> final(buffer)@[i as int] == old(buffer)@[i as int],
            dressed ==> final(buffer)@[i as int].likeness() == self@[old(
                buffer,
            )@[i as int].codepoint],
            same_but_likeness(old(buffer)@[i as int], final(buffer)@[i as int]),
    {
        let codepoint = buffer[i].codepoint;
        match self.glyphs.get(&codepoint) {
            None => false,
            Some(data) => {
                buffer[i].name = data.name.clone();
                buffer[i].extents = data.extents;
                buffer[i].paths = copy_paths(&data.paths);
                buffer[i].contours = copy_contours(&data.contours);
                true
            },
        }
    }
}

/// `after` is `before` but for name, box, outline and contours.
pub open spec fn same_but_likeness(before: GulzarGlyph, after: GulzarGlyph) -> bool {
    after == (GulzarGlyph {
        name: after.name,
        extents: after.extents,
        paths: after.paths,
        contours: after.contours,
        ..before
    })
}

/// Everything that the store holds is something that `fetch` may have
/// returned for the glyph's number.
pub open spec fn fetched_by<F: Fn(u32) -> FontGlyph>(held: Map<u32, Likeness>, fetch: &F) -> bool {
    forall|glyph: u32| #[trigger]
        held.contains_key(glyph) ==> exists|data: FontGlyph|
            call_ensures(*fetch, (glyph,), data) && #[trigger] data.likeness() == held[glyph]
}

/// `after` is `before` but for name, box, outline, contours and running
/// total.
pub open spec fn same_but_font_data(before: GulzarGlyph, after: GulzarGlyph) -> bool {
    after == (GulzarGlyph {
        name: after.name,
        extents: after.extents,
        paths: after.paths,
        contours: after.contours,
        x_total_advance: after.x_total_advance,
        ..before
    })
}

/// Every glyph of the buffer looks as the store says for its number.
pub open spec fn dressed_from(buffer: Seq<GulzarGlyph>, held: Map<u32, Likeness>) -> bool {
    forall|i: int|
        0 <= i < buffer.len() ==> held.contains_key((#[trigger] buffer[i]).codepoint)
            && buffer[i].likeness() == held[buffer[i].codepoint]
}

/// Two glyphs of one number look the same in a buffer that was dressed
/// from one store.
pub proof fn lemma_same_number_same_likeness(
    buffer: Seq<GulzarGlyph>,
    held: Map<u32, Likeness>,
    i: int,
    j: int,
)
    requires
        dressed_from(buffer, held),
        0 <= i < buffer.len(),
        0 <= j < buffer.len(),
        buffer[i].codepoint == buffer[j].codepoint,
    ensures
        buffer[i].likeness() == buffer[j].likeness(),
{
}

/// Makes a buffer ready: every glyph gets its name, box, outline and
/// contours from the font, and its running total. `fetch` reads one
/// glyph from the font. It is called once for each number that occurs in
/// the buffer, however often the number occurs; the store that comes
/// back holds what it returned.
pub fn prepare_buffer<F: Fn(u32) -> FontGlyph>(buffer: &mut Vec<GulzarGlyph>, fetch: &F) -> (store:
    OutlineStore)
    requires
        forall|glyph: u32| call_requires(*fetch, (glyph,)),
        totals_fit(old(buffer)@),
    ensures
        final(buffer)@.len() == old(buffer)@.len(),
        forall|i: int|
            0 <= i < old(buffer)@.len() ==> same_but_font_data(
                old(buffer)@[i],
                #[trigger] final(buffer)@[i],
            ),
        fetched_by(store@, fetch),
        dressed_from(final(buffer)@, store@),
        totals_current(final(buffer)@),
{
    let mut store = OutlineStore::new();
    let mut i: usize = 0;
    while i < buffer.len()
        invariant
            forall|glyph: u32| call_requires(*fetch, (glyph,)),
            buffer@.len() == old(buffer)@.len(),
            i <= buffer@.len(),
            fetched_by(store@, fetch),
            forall|k: int|
                0 <= k < i ==> store@.contains_key((#[trigger] buffer@[k]).codepoint)
                    && buffer@[k].likeness() == store@[buffer@[k].codepoint],
            forall|k: int|
                0 <= k < i ==> same_but_likeness(old(buffer)@[k], #[trigger] buffer@[k]),
            forall|k: int| i <= k < buffer@.len() ==> #[trigger] buffer@[k] == old(buffer)@[k],
        decreases buffer@.len() - i,
    {
        let codepoint = buffer[i].codepoint;
        if !store.holds(codepoint) {
            let data = fetch(codepoint);
            let ghost before = store@;
            let ghost likeness = data.likeness();
            store.keep(codepoint, data);
            proof {
                assert forall|glyph: u32| #[trigger]
                    store@.contains_key(glyph) implies exists|d: FontGlyph|
                    call_ensures(*fetch, (glyph,), d) && #[trigger] d.likeness()
                        == store@[glyph] by {
                    if glyph != codepoint {
                        assert(before.contains_key(glyph));
                    }
                }
            }
        }
        store.dress(buffer, i);
        i = i + 1;
    }
    let ghost dressed = buffer@;
    proof {
        assert forall|n: int| 0 <= n <= dressed.len() implies i32::MIN <= #[trigger] advance_sum(
            dressed,
            n,
        ) <= i32::MAX by {
            assert forall|k: int| 0 <= k < n implies (#[trigger] dressed[k]).x_advance == old(
                buffer,
            )@[k].x_advance by {
                assert(same_but_likeness(old(buffer)@[k], dressed[k]));
            }
            lemma_advance_sum_depends_on_advances(dressed, old(buffer)@, n);
            assert(i32::MIN <= advance_sum(old(buffer)@, n) <= i32::MAX);
        }
    }
    set_total_advance(buffer);
    proof {
        assert forall|k: int| 0 <= k < old(buffer)@.len() implies same_but_font_data(
            old(buffer)@[k],
            #[trigger] buffer@[k],
        ) by {
            assert(same_but_likeness(old(buffer)@[k], dressed[k]));
            assert(buffer@[k] == (GulzarGlyph {
                x_total_advance: buffer@[k].x_total_advance,
                ..dressed[k]
            }));
        }
        assert forall|k: int| 0 <= k < buffer@.len() implies store@.contains_key(
            (#[trigger] buffer@[k]).codepoint,
        ) && buffer@[k].likeness() == store@[buffer@[k].codepoint] by {
            assert(buffer@[k] == (GulzarGlyph {
                x_total_advance: buffer@[k].x_total_advance,
                ..dressed[k]
            }));
            assert(store@.contains_key(dressed[k].codepoint));
        }
    }
    store
}

} // verus!
