//! Laying out a cluster of hieroglyphs inside a square.
//!
//! A cluster is a tree: signs arranged beside, above, over or in the
//! corners of one another. The whole cluster gets a square cell. A row
//! splits its cell into columns, a stack splits it into rows, signs laid
//! over one another share a cell, and an inserted sign gets a quarter of
//! the cell of the sign that it is inserted into. Each sign is then drawn
//! in the middle of its cell, in a smaller cut where it is stacked or
//! inserted and the font has one.

use crate::ast::Expr;
use crate::glyph::{find_last_named, is_last_named, Glyph, GlyphExtents};
use vstd::string::StringExecFns;
use crate::tokenizer::Tok;
use std::collections::BTreeMap;
use vstd::prelude::*;

verus! {

broadcast use vstd::std_specs::btree::group_btree_axioms;

/// Largest side of the cell of a cluster.
pub const CELL_LIMIT: i32 = 0x2000_0000;

/// What the layout needs to know of a font: the glyph for each sign,
/// the box of each glyph, and the smaller cut of a glyph where there is
/// one.
pub struct FontTable {
    glyphs: BTreeMap<u32, u32>,
    extents: BTreeMap<u32, GlyphExtents>,
    halves: BTreeMap<u32, u32>,
}

/// The box of a glyph that the table does not know.
pub open spec fn no_extents() -> GlyphExtents {
    GlyphExtents { x_bearing: 0, y_bearing: 0, width: 0, height: 0 }
}

impl FontTable {
    /// The glyph for a sign, or glyph 0 where the table has none.
    pub closed spec fn glyph_for(&self, sign: u32) -> u32 {
        if self.glyphs@.contains_key(sign) {
            self.glyphs@[sign]
        } else {
            0
        }
    }

    /// The box of a glyph, or an empty box where the table has none.
    pub closed spec fn extents_for(&self, glyph: u32) -> GlyphExtents {
        if self.extents@.contains_key(glyph) {
            self.extents@[glyph]
        } else {
            no_extents()
        }
    }

    /// The smaller cut of a glyph, or the glyph itself where the table
    /// has none.
    pub closed spec fn half_for(&self, glyph: u32) -> u32 {
        if self.halves@.contains_key(glyph) {
            self.halves@[glyph]
        } else {
            glyph
        }
    }

    /// A table that knows nothing.
    pub fn new() -> (table: FontTable)
        ensures
            forall|sign: u32| #[trigger] table.glyph_for(sign) == 0,
            forall|glyph: u32| #[trigger] table.extents_for(glyph) == no_extents(),
            forall|glyph: u32| #[trigger] table.half_for(glyph) == glyph,
    {
        FontTable { glyphs: BTreeMap::new(), extents: BTreeMap::new(), halves: BTreeMap::new() }
    }

    /// Tells the table the glyph for a sign.
    pub fn set_glyph(&mut self, sign: u32, glyph: u32)
        ensures
            final(self).glyph_for(sign) == glyph,
            forall|other: u32|
                other != sign ==> #[trigger] final(self).glyph_for(other) == old(self).glyph_for(
                    other,
                ),
            forall|g: u32| #[trigger] final(self).extents_for(g) == old(self).extents_for(g),
            forall|g: u32| #[trigger] final(self).half_for(g) == old(self).half_for(g),
    {
        self.glyphs.insert(sign, glyph);
    }

    /// Tells the table the box of a glyph.
    pub fn set_extents(&mut self, glyph: u32, extents: GlyphExtents)
        ensures
            final(self).extents_for(glyph) == extents,
            forall|other: u32|
                other != glyph ==> #[trigger] final(self).extents_for(other) == old(
                    self,
                ).extents_for(other),
            forall|s: u32| #[trigger] final(self).glyph_for(s) == old(self).glyph_for(s),
            forall|g: u32| #[trigger] final(self).half_for(g) == old(self).half_for(g),
    {
        self.extents.insert(glyph, extents);
    }

    /// Tells the table the smaller cut of a glyph.
    pub fn set_half(&mut self, glyph: u32, half: u32)
        ensures
            final(self).half_for(glyph) == half,
            forall|other: u32|
                other != glyph ==> #[trigger] final(self).half_for(other) == old(self).half_for(
                    other,
                ),
            forall|s: u32| #[trigger] final(self).glyph_for(s) == old(self).glyph_for(s),
            forall|g: u32| #[trigger] final(self).extents_for(g) == old(self).extents_for(g),
    {
        self.halves.insert(glyph, half);
    }

    /// The glyph for a sign.
    pub fn glyph(&self, sign: u32) -> (glyph: u32)
        ensures
            glyph == self.glyph_for(sign),
    {
        match self.glyphs.get(&sign) {
            Some(glyph) => *glyph,
            None => 0,
        }
    }

    /// The box of a glyph.
    pub fn extents(&self, glyph: u32) -> (extents: GlyphExtents)
        ensures
            extents == self.extents_for(glyph),
    {
        match self.extents.get(&glyph) {
            Some(extents) => *extents,
            None => GlyphExtents { x_bearing: 0, y_bearing: 0, width: 0, height: 0 },
        }
    }

    /// The smaller cut of a glyph.
    pub fn half(&self, glyph: u32) -> (half: u32)
        ensures
            half == self.half_for(glyph),
    {
        match self.halves.get(&glyph) {
            Some(half) => *half,
            None => glyph,
        }
    }
}

/// A part of the square of a cluster: its size, and where its lower left
/// corner lies in the square.
#[derive(Clone, Copy, Debug, PartialEq, Eq, Structural)]
pub struct Cell {
    pub width: i32,
    pub height: i32,
    pub x: i32,
    pub y: i32,
}

impl Cell {
    /// The cell lies inside a square of the largest size around the
    /// origin. A width or height below zero is in order: such a cell
    /// runs to the left of its corner, or down from it.
    pub open spec fn fits(self) -> bool {
        &&& -CELL_LIMIT <= self.x <= CELL_LIMIT
        &&& -CELL_LIMIT <= self.y <= CELL_LIMIT
        &&& -CELL_LIMIT <= self.x + self.width <= CELL_LIMIT
        &&& -CELL_LIMIT <= self.y + self.height <= CELL_LIMIT
    }

    /// Column `i` of `count` columns of equal width, counted from the
    /// corner of the cell.
    pub open spec fn column(self, count: int, i: int) -> Cell {
        Cell {
            width: part(self.width as int, count) as i32,
            x: (self.x + i * part(self.width as int, count)) as i32,
            ..self
        }
    }

    /// Row `k` of `count` rows of equal height, counted from the corner
    /// of the cell.
    pub open spec fn row(self, count: int, k: int) -> Cell {
        Cell {
            height: part(self.height as int, count) as i32,
            y: (self.y + k * part(self.height as int, count)) as i32,
            ..self
        }
    }

    /// One of the four quarters of the cell.
    pub open spec fn quarter(self, right: bool, top: bool) -> Cell {
        Cell {
            width: part(self.width as int, 2) as i32,
            height: part(self.height as int, 2) as i32,
            x: if right {
                (self.x + part(self.width as int, 2)) as i32
            } else {
                self.x
            },
            y: if top {
                (self.y + part(self.height as int, 2)) as i32
            } else {
                self.y
            },
        }
    }
}

/// One of `count` equal parts of `v`, cut toward zero.
pub open spec fn part(v: int, count: int) -> int {
    if v >= 0 {
        v / count
    } else {
        -((-v) / count)
    }
}

/// The place of one sign: the sign, its cell, and whether its smaller
/// cut is wanted.
#[derive(Clone, Copy, Debug, PartialEq, Eq, Structural)]
pub struct Slot {
    pub sign: u32,
    pub cell: Cell,
    pub small: bool,
}

/// The places of the signs of a cluster that is laid out in `cell`, in
/// the order in which they are drawn.
///
/// The members of a row get columns from left to right. The members of a
/// stack get rows, the last member the lowest, and are drawn from the
/// last to the first, each in its smaller cut. Signs laid over one
/// another share the cell. The signs inserted into another get quarters
/// of its cell, in the order top left, bottom left, bottom right, top
/// right, each in its smaller cut. A token that is no sign has no place.
pub open spec fn slots_of(expr: Expr, cell: Cell, small: bool) -> Seq<Slot>
    decreases expr, 0nat,
{
    match expr {
        Expr::Sign(Tok::Sign(sign)) => seq![Slot { sign, cell, small }],
        Expr::Other(Tok::Other(sign)) => seq![Slot { sign, cell, small }],
        Expr::Horizontal(list) => row_slots(list, list@.len(), cell, small),
        Expr::Vertical(list) => stack_slots(list, list@.len(), cell),
        Expr::Overlay(first, second) => slots_of(*first, cell, small) + slots_of(
            *second,
            cell,
            small,
        ),
        Expr::Insertion { base, start_top, start_bottom, end_top, end_bottom } => {
            slots_of(*base, cell, small) + (match start_top {
                Some(inserted) => slots_of(*inserted, cell.quarter(false, true), true),
                None => Seq::empty(),
            }) + (match start_bottom {
                Some(inserted) => slots_of(*inserted, cell.quarter(false, false), true),
                None => Seq::empty(),
            }) + (match end_bottom {
                Some(inserted) => slots_of(*inserted, cell.quarter(true, false), true),
                None => Seq::empty(),
            }) + (match end_top {
                Some(inserted) => slots_of(*inserted, cell.quarter(true, true), true),
                None => Seq::empty(),
            })
        },
        _ => Seq::empty(),
    }
}

/// The places of the signs of the first `n` members of a row.
pub open spec fn row_slots(list: Vec<Box<Expr>>, n: nat, cell: Cell, small: bool) -> Seq<Slot>
    decreases list, n,
{
    if n == 0 || n > list@.len() {
        Seq::empty()
    } else {
        row_slots(list, (n - 1) as nat, cell, small) + slots_of(
            *list@[n - 1],
            cell.column(list@.len() as int, n - 1),
            small,
        )
    }
}

/// The places of the signs of the last `n` members of a stack, the last
/// member first.
pub open spec fn stack_slots(list: Vec<Box<Expr>>, n: nat, cell: Cell) -> Seq<Slot>
    decreases list, n,
{
    if n == 0 || n > list@.len() {
        Seq::empty()
    } else {
        stack_slots(list, (n - 1) as nat, cell) + slots_of(
            *list@[list@.len() - n],
            cell.row(list@.len() as int, n - 1),
            true,
        )
    }
}

/// The places of the signs of what is inserted into a corner, if
/// anything is.
pub open spec fn corner_slots(corner: Option<Box<Expr>>, cell: Cell) -> Seq<Slot> {
    match corner {
        Some(inserted) => slots_of(*inserted, cell, true),
        None => Seq::empty(),
    }
}

/// Half of `v`, cut toward zero.
pub open spec fn half_toward_zero(v: int) -> int {
    part(v, 2)
}

/// The glyph that is drawn for a slot.
pub open spec fn glyph_at(table: FontTable, slot: Slot) -> u32 {
    if slot.small {
        table.half_for(table.glyph_for(slot.sign))
    } else {
        table.glyph_for(slot.sign)
    }
}

/// The glyph for a slot, in the middle of its cell. The first glyph of a
/// cluster, the `lead`, carries the advance of the cluster; every other
/// glyph is drawn back over the advance.
pub open spec fn glyph_in(
    table: FontTable,
    slot: Slot,
    advance: int,
    cluster: u32,
    lead: bool,
) -> Glyph {
    let glyph = glyph_at(table, slot);
    let extents = table.extents_for(glyph);
    let centre_x = half_toward_zero(slot.cell.width - extents.width);
    let centre_y = half_toward_zero(slot.cell.height + extents.height);
    Glyph {
        codepoint: glyph,
        cluster,
        x_advance: if lead {
            advance as i32
        } else {
            0
        },
        y_advance: 0,
        x_offset: if lead {
            (slot.cell.x + centre_x) as i32
        } else {
            (slot.cell.x + centre_x - advance) as i32
        },
        y_offset: (slot.cell.y + centre_y) as i32,
        flags: 0,
    }
}

/// The glyphs for a list of slots. The first is the lead where `lead`
/// says so.
pub open spec fn glyphs_in(
    table: FontTable,
    slots: Seq<Slot>,
    advance: int,
    cluster: u32,
    lead: bool,
) -> Seq<Glyph> {
    Seq::new(slots.len(), |k: int| glyph_in(table, slots[k], advance, cluster, lead && k == 0))
}

/// The glyphs for two lists of slots, one after the other, are the
/// glyphs for the first list and then those for the second.
pub proof fn lemma_glyphs_in_joined(
    table: FontTable,
    a: Seq<Slot>,
    b: Seq<Slot>,
    advance: int,
    cluster: u32,
    lead: bool,
)
    ensures
        glyphs_in(table, a + b, advance, cluster, lead) == glyphs_in(
            table,
            a,
            advance,
            cluster,
            lead,
        ) + glyphs_in(table, b, advance, cluster, lead && a.len() == 0),
{
    assert(glyphs_in(table, a + b, advance, cluster, lead) =~= glyphs_in(
        table,
        a,
        advance,
        cluster,
        lead,
    ) + glyphs_in(table, b, advance, cluster, lead && a.len() == 0));
}

/// Lays out clusters, one after another, and collects their glyphs.
pub struct LayoutEngine {
    /// What is known of the font.
    pub table: FontTable,
    /// The glyphs laid out so far.
    pub glyphs: Vec<Glyph>,
    /// The side of the square of a cluster, which is also its advance.
    pub advance: i32,
    /// The number of the cluster that comes next.
    pub cluster: u32,
    /// Whether the next glyph is the first of its cluster.
    pub is_first_glyph: bool,
}

/// The engine has gone from `before` to `after` by laying out the given
/// slots and nothing else.
pub open spec fn laid(before: LayoutEngine, after: LayoutEngine, slots: Seq<Slot>) -> bool {
    &&& after.glyphs@ == before.glyphs@ + glyphs_in(
        before.table,
        slots,
        before.advance as int,
        before.cluster,
        before.is_first_glyph,
    )
    &&& after.is_first_glyph == (before.is_first_glyph && slots.len() == 0)
    &&& after.table == before.table
    &&& after.advance == before.advance
    &&& after.cluster == before.cluster
}

/// Laying out one list of slots and then another lays out the two lists
/// joined.
pub proof fn lemma_laid_twice(
    a: LayoutEngine,
    b: LayoutEngine,
    c: LayoutEngine,
    first: Seq<Slot>,
    second: Seq<Slot>,
)
    requires
        laid(a, b, first),
        laid(b, c, second),
    ensures
        laid(a, c, first + second),
{
    lemma_glyphs_in_joined(
        a.table,
        first,
        second,
        a.advance as int,
        a.cluster,
        a.is_first_glyph,
    );
    assert(c.glyphs@ =~= a.glyphs@ + (glyphs_in(
        a.table,
        first,
        a.advance as int,
        a.cluster,
        a.is_first_glyph,
    ) + glyphs_in(
        a.table,
        second,
        a.advance as int,
        a.cluster,
        a.is_first_glyph && first.len() == 0,
    )));
}

/// Up to `count` parts of a number lie between zero and the number.
proof fn lemma_parts_within(v: int, count: int, i: int)
    requires
        0 <= i <= count,
        count > 0,
    ensures
        v >= 0 ==> 0 <= i * part(v, count) <= v,
        v <= 0 ==> v <= i * part(v, count) <= 0,
{
    let m = if v >= 0 {
        v
    } else {
        -v
    };
    let step = m / count;
    vstd::arithmetic::div_mod::lemma_fundamental_div_mod(m, count);
    vstd::arithmetic::div_mod::lemma_mod_bound(m, count);
    assert(0 <= step) by (nonlinear_arith)
        requires
            m == count * step + m % count,
            0 <= m % count < count,
            0 <= m,
            count > 0,
    ;
    assert(0 <= i * step <= count * step) by (nonlinear_arith)
        requires
            0 <= i <= count,
            0 <= step,
    ;
    if v < 0 {
        assert(i * (-step) == -(i * step)) by (nonlinear_arith);
    }
}

/// Column `i` of a cell that fits fits too, and the corner of the column
/// after it lies inside the cell.
proof fn lemma_column_fits(cell: Cell, count: int, i: int)
    requires
        cell.fits(),
        0 <= i < count,
    ensures
        cell.column(count, i).fits(),
        cell.column(count, i).x == cell.x + i * part(cell.width as int, count),
        cell.column(count, i).width == part(cell.width as int, count),
        -CELL_LIMIT <= cell.x + (i + 1) * part(cell.width as int, count) <= CELL_LIMIT,
{
    let w = cell.width as int;
    let step = part(w, count);
    lemma_parts_within(w, count, i);
    lemma_parts_within(w, count, i + 1);
    lemma_parts_within(w, count, 1);
    assert((i + 1) * step == i * step + step) by (nonlinear_arith);
    assert(1 * step == step);
}

/// Row `k` of a cell that fits fits too, and the corner of the row after
/// it lies inside the cell.
proof fn lemma_row_fits(cell: Cell, count: int, k: int)
    requires
        cell.fits(),
        0 <= k < count,
    ensures
        cell.row(count, k).fits(),
        cell.row(count, k).y == cell.y + k * part(cell.height as int, count),
        cell.row(count, k).height == part(cell.height as int, count),
        -CELL_LIMIT <= cell.y + (k + 1) * part(cell.height as int, count) <= CELL_LIMIT,
{
    let h = cell.height as int;
    let step = part(h, count);
    lemma_parts_within(h, count, k);
    lemma_parts_within(h, count, k + 1);
    lemma_parts_within(h, count, 1);
    assert((k + 1) * step == k * step + step) by (nonlinear_arith);
    assert(1 * step == step);
}

/// One of `count` equal parts of a number, cut toward zero.
fn part_of(v: i32, count: usize) -> (p: i32)
    requires
        count > 0,
    ensures
        p == part(v as int, count as int),
{
    proof {
        lemma_parts_within(v as int, count as int, 1);
        assert(1 * part(v as int, count as int) == part(v as int, count as int));
    }
    let n: u64 = count as u64;
    if v >= 0 {
        (v as u64 / n) as i32
    } else {
        let m: u64 = (-(v as i64)) as u64;
        let q: u64 = m / n;
        (-(q as i64)) as i32
    }
}

/// Half of a number, cut toward zero.
fn halved(v: i64) -> (half: i64)
    requires
        -0x1_0000_0000 <= v <= 0x1_0000_0000,
    ensures
        half == half_toward_zero(v as int),
{
    if v >= 0 {
        v / 2
    } else {
        -((-v) / 2)
    }
}

impl LayoutEngine {
    /// The side of the square is not too large. A side below zero is in
    /// order: the square then lies to the left of the pen and below it.
    pub open spec fn wf(&self) -> bool {
        -CELL_LIMIT <= self.advance <= CELL_LIMIT
    }

    /// The square of a cluster.
    pub open spec fn whole_cell(&self) -> Cell {
        Cell { width: self.advance, height: self.advance, x: 0, y: 0 }
    }

    /// An engine that has laid out nothing yet. Every cluster gets a
    /// square of side `advance`.
    pub fn new(table: FontTable, advance: i32) -> (engine: LayoutEngine)
        requires
            -CELL_LIMIT <= advance <= CELL_LIMIT,
        ensures
            engine.wf(),
            engine.table == table,
            engine.glyphs@ == Seq::<Glyph>::empty(),
            engine.advance == advance,
            engine.cluster == 0,
            engine.is_first_glyph,
    {
        LayoutEngine { table, glyphs: Vec::new(), advance, cluster: 0, is_first_glyph: true }
    }

    /// Lays out one cluster in its square and goes on to the next
    /// cluster.
    pub fn layout_cluster(&mut self, expr: &Expr)
        requires
            old(self).wf(),
            old(self).cluster < u32::MAX,
        ensures
            final(self).wf(),
            final(self).glyphs@ == old(self).glyphs@ + glyphs_in(
                old(self).table,
                slots_of(*expr, old(self).whole_cell(), false),
                old(self).advance as int,
                old(self).cluster,
                old(self).is_first_glyph,
            ),
            final(self).table == old(self).table,
            final(self).advance == old(self).advance,
            final(self).cluster == old(self).cluster + 1,
            final(self).is_first_glyph,
    {
        let cell = Cell { width: self.advance, height: self.advance, x: 0, y: 0 };
        self.layout_expr(expr, cell, false);
        self.cluster = self.cluster + 1;
        self.is_first_glyph = true;
    }

    /// Lays out a cluster, or a part of one, in the given cell.
    pub fn layout_expr(&mut self, expr: &Expr, cell: Cell, small: bool)
        requires
            old(self).wf(),
            cell.fits(),
        ensures
            final(self).wf(),
            laid(*old(self), *final(self), slots_of(*expr, cell, small)),
        decreases expr, 1nat,
    {
        match expr {
            Expr::Sign(Tok::Sign(sign)) => {
                self.layout_glyph(*sign, cell, small);
            },
            Expr::Other(Tok::Other(sign)) => {
                self.layout_glyph(*sign, cell, small);
            },
            Expr::Horizontal(list) => {
                assert(decreases_to!(*expr => expr->Horizontal_0));
                self.layout_horizontal(list, cell, small);
            },
            Expr::Vertical(list) => {
                assert(decreases_to!(*expr => expr->Vertical_0));
                self.layout_vertical(list, cell);
            },
            Expr::Overlay(_, _) => {
                self.layout_overlay(expr, cell, small);
            },
            Expr::Insertion { .. } => {
                self.layout_insertion(expr, cell, small);
            },
            _ => {
                assert(self.glyphs@ =~= old(self).glyphs@ + glyphs_in(
                    old(self).table,
                    Seq::<Slot>::empty(),
                    old(self).advance as int,
                    old(self).cluster,
                    old(self).is_first_glyph,
                ));
            },
        }
    }

    /// Draws the glyph for a sign in the middle of the cell.
    fn layout_glyph(&mut self, sign: u32, cell: Cell, small: bool)
        requires
            old(self).wf(),
            cell.fits(),
        ensures
            final(self).wf(),
            laid(*old(self), *final(self), seq![Slot { sign, cell, small }]),
    {
        let mut glyph = self.table.glyph(sign);
        if small {
            glyph = self.table.half(glyph);
        }
        let extents = self.table.extents(glyph);
        let centre_x = halved(cell.width as i64 - extents.width as i64);
        let centre_y = halved(cell.height as i64 + extents.height as i64);
        let lead = self.is_first_glyph;
        let x_offset: i64 = if lead {
            cell.x as i64 + centre_x
        } else {
            cell.x as i64 + centre_x - self.advance as i64
        };
        let laid_out = Glyph {
            codepoint: glyph,
            cluster: self.cluster,
            x_advance: if lead {
                self.advance
            } else {
                0
            },
            y_advance: 0,
            x_offset: x_offset as i32,
            y_offset: (cell.y as i64 + centre_y) as i32,
            flags: 0,
        };
        self.glyphs.push(laid_out);
        self.is_first_glyph = false;
        proof {
            let slot = Slot { sign, cell, small };
            assert(laid_out == glyph_in(
                old(self).table,
                slot,
                old(self).advance as int,
                old(self).cluster,
                lead,
            ));
            assert(self.glyphs@ =~= old(self).glyphs@ + glyphs_in(
                old(self).table,
                seq![slot],
                old(self).advance as int,
                old(self).cluster,
                lead,
            ));
        }
    }

    /// Lays out the members of a row in columns, from left to right.
    fn layout_horizontal(&mut self, list: &Vec<Box<Expr>>, cell: Cell, small: bool)
        requires
            old(self).wf(),
            cell.fits(),
        ensures
            final(self).wf(),
            laid(*old(self), *final(self), row_slots(*list, list@.len(), cell, small)),
        decreases list, 0nat,
    {
        let count = list.len();
        proof {
            assert(self.glyphs@ =~= old(self).glyphs@ + glyphs_in(
                old(self).table,
                row_slots(*list, 0, cell, small),
                old(self).advance as int,
                old(self).cluster,
                old(self).is_first_glyph,
            ));
        }
        if count == 0 {
            return ;
        }
        proof {
            lemma_column_fits(cell, count as int, 0);
        }
        let step: i32 = part_of(cell.width, count);
        let mut x: i32 = cell.x;
        let mut i: usize = 0;
        while i < count
            invariant
                count == list@.len(),
                count > 0,
                old(self).wf(),
                self.wf(),
                cell.fits(),
                step == part(cell.width as int, count as int),
                i <= count,
                x == cell.x + i * step,
                laid(*old(self), *self, row_slots(*list, i as nat, cell, small)),
            decreases count - i,
        {
            let child = Cell { width: step, height: cell.height, x, y: cell.y };
            let ghost before = *self;
            proof {
                lemma_column_fits(cell, count as int, i as int);
                assert(child == cell.column(count as int, i as int));
                assert(decreases_to!(*list => list[i as int]));
            }
            self.layout_expr(&list[i], child, small);
            proof {
                lemma_laid_twice(
                    *old(self),
                    before,
                    *self,
                    row_slots(*list, i as nat, cell, small),
                    slots_of(*list@[i as int], child, small),
                );
                assert((i + 1) * step == i * step + step) by (nonlinear_arith);
            }
            x = x + step;
            i = i + 1;
        }
    }

    /// Lays out the members of a stack in rows, the last member in the
    /// lowest row first, each in its smaller cut.
    fn layout_vertical(&mut self, list: &Vec<Box<Expr>>, cell: Cell)
        requires
            old(self).wf(),
            cell.fits(),
        ensures
            final(self).wf(),
            laid(*old(self), *final(self), stack_slots(*list, list@.len(), cell)),
        decreases list, 0nat,
    {
        let count = list.len();
        proof {
            assert(self.glyphs@ =~= old(self).glyphs@ + glyphs_in(
                old(self).table,
                stack_slots(*list, 0, cell),
                old(self).advance as int,
                old(self).cluster,
                old(self).is_first_glyph,
            ));
        }
        if count == 0 {
            return ;
        }
        proof {
            lemma_row_fits(cell, count as int, 0);
        }
        let step: i32 = part_of(cell.height, count);
        let mut y: i32 = cell.y;
        let mut k: usize = 0;
        while k < count
            invariant
                count == list@.len(),
                count > 0,
                old(self).wf(),
                self.wf(),
                cell.fits(),
                step == part(cell.height as int, count as int),
                k <= count,
                y == cell.y + k * step,
                laid(*old(self), *self, stack_slots(*list, k as nat, cell)),
            decreases count - k,
        {
            let child = Cell { width: cell.width, height: step, x: cell.x, y };
            let at: usize = count - 1 - k;
            let ghost before = *self;
            proof {
                lemma_row_fits(cell, count as int, k as int);
                assert(child == cell.row(count as int, k as int));
                assert(decreases_to!(*list => list[at as int]));
            }
            self.layout_expr(&list[at], child, true);
            proof {
                lemma_laid_twice(
                    *old(self),
                    before,
                    *self,
                    stack_slots(*list, k as nat, cell),
                    slots_of(*list@[at as int], child, true),
                );
                assert((k + 1) * step == k * step + step) by (nonlinear_arith);
            }
            y = y + step;
            k = k + 1;
        }
    }

    /// Lays out two parts over one another, in one cell.
    fn layout_overlay(&mut self, expr: &Expr, cell: Cell, small: bool)
        requires
            old(self).wf(),
            cell.fits(),
            *expr is Overlay,
        ensures
            final(self).wf(),
            laid(*old(self), *final(self), slots_of(*expr, cell, small)),
        decreases expr, 0nat,
    {
        match expr {
            Expr::Overlay(first, second) => {
                self.layout_expr(first, cell, small);
                let ghost between = *self;
                self.layout_expr(second, cell, small);
                proof {
                    lemma_laid_twice(
                        *old(self),
                        between,
                        *self,
                        slots_of(**first, cell, small),
                        slots_of(**second, cell, small),
                    );
                }
            },
            _ => {},
        }
    }

    /// Lays out what is inserted into a corner, if anything is, in its
    /// smaller cut.
    fn layout_corner(&mut self, corner: &Option<Box<Expr>>, cell: Cell)
        requires
            old(self).wf(),
            cell.fits(),
        ensures
            final(self).wf(),
            laid(*old(self), *final(self), corner_slots(*corner, cell)),
        decreases corner, 2nat,
    {
        match corner {
            Some(inserted) => {
                self.layout_expr(inserted, cell, true);
            },
            None => {
                assert(self.glyphs@ =~= old(self).glyphs@ + glyphs_in(
                    old(self).table,
                    Seq::<Slot>::empty(),
                    old(self).advance as int,
                    old(self).cluster,
                    old(self).is_first_glyph,
                ));
            },
        }
    }

    /// Lays out a part and what is inserted into its corners: top left,
    /// bottom left, bottom right, top right.
    fn layout_insertion(&mut self, expr: &Expr, cell: Cell, small: bool)
        requires
            old(self).wf(),
            cell.fits(),
            *expr is Insertion,
        ensures
            final(self).wf(),
            laid(*old(self), *final(self), slots_of(*expr, cell, small)),
        decreases expr, 0nat,
    {
        match expr {
            Expr::Insertion { base, start_top, start_bottom, end_top, end_bottom } => {
                let half_width: i32 = part_of(cell.width, 2);
                let half_height: i32 = part_of(cell.height, 2);
                proof {
                    lemma_column_fits(cell, 2, 0);
                    lemma_row_fits(cell, 2, 0);
                    assert(1 * (half_width as int) == half_width);
                    assert(1 * (half_height as int) == half_height);
                }
                let top_left = Cell {
                    width: half_width,
                    height: half_height,
                    x: cell.x,
                    y: cell.y + half_height,
                };
                let bottom_left = Cell {
                    width: half_width,
                    height: half_height,
                    x: cell.x,
                    y: cell.y,
                };
                let bottom_right = Cell {
                    width: half_width,
                    height: half_height,
                    x: cell.x + half_width,
                    y: cell.y,
                };
                let top_right = Cell {
                    width: half_width,
                    height: half_height,
                    x: cell.x + half_width,
                    y: cell.y + half_height,
                };
                assert(top_left == cell.quarter(false, true));
                assert(bottom_left == cell.quarter(false, false));
                assert(bottom_right == cell.quarter(true, false));
                assert(top_right == cell.quarter(true, true));
                let ghost s0 = *self;
                self.layout_expr(base, cell, small);
                let ghost s1 = *self;
                assert(decreases_to!(*expr => expr->Insertion_start_top));
                self.layout_corner(start_top, top_left);
                let ghost s2 = *self;
                assert(decreases_to!(*expr => expr->Insertion_start_bottom));
                self.layout_corner(start_bottom, bottom_left);
                let ghost s3 = *self;
                assert(decreases_to!(*expr => expr->Insertion_end_bottom));
                self.layout_corner(end_bottom, bottom_right);
                let ghost s4 = *self;
                assert(decreases_to!(*expr => expr->Insertion_end_top));
                self.layout_corner(end_top, top_right);
                proof {
                    let a = slots_of(**base, cell, small);
                    let b = corner_slots(*start_top, top_left);
                    let c = corner_slots(*start_bottom, bottom_left);
                    let d = corner_slots(*end_bottom, bottom_right);
                    let e = corner_slots(*end_top, top_right);
                    lemma_laid_twice(s0, s1, s2, a, b);
                    lemma_laid_twice(s0, s2, s3, a + b, c);
                    lemma_laid_twice(s0, s3, s4, a + b + c, d);
                    lemma_laid_twice(s0, s4, *self, a + b + c + d, e);
                    assert(slots_of(*expr, cell, small) == a + b + c + d + e);
                }
            },
            _ => {},
        }
    }
}

/// What the name of the smaller cut of a glyph ends in.
pub open spec fn half_suffix() -> Seq<char> {
    ".half"@
}

/// The glyph numbered `half` is the smaller cut of the glyph numbered
/// `id`: `id` is the glyph that goes by its name, and `half` is the glyph
/// that goes by that name with the suffix for smaller cuts.
pub open spec fn is_half_of(names: Seq<String>, id: int, half: int) -> bool {
    &&& 0 <= id < names.len()
    &&& is_last_named(names, names[id]@, id)
    &&& is_last_named(names, names[id]@ + half_suffix(), half)
}

/// The glyph numbered `id` has a smaller cut.
pub open spec fn has_half(names: Seq<String>, id: int) -> bool {
    exists|half: int| #[trigger] is_half_of(names, id, half)
}

/// Finds the smaller cut of the glyph numbered `id` among the glyphs
/// whose names are given in the order of their numbers.
pub fn find_half(names: &Vec<String>, id: usize) -> (half: Option<usize>)
    requires
        id < names@.len(),
    ensures
        half matches Some(h) ==> is_half_of(names@, id as int, h as int),
        half is None ==> !has_half(names@, id as int),
{
    match find_last_named(names, &names[id]) {
        None => None,
        Some(own) => {
            if own != id {
                assert(!is_last_named(names@, names@[id as int]@, id as int));
                return None;
            }
            let wanted = names[id].clone().concat(".half");
            let found = find_last_named(names, &wanted);
            proof {
                if found is None {
                    assert forall|half: int| !#[trigger] is_half_of(names@, id as int, half) by {
                        if is_half_of(names@, id as int, half) {
                            assert(names@[half]@ == wanted@);
                        }
                    }
                }
            }
            found
        },
    }
}

/// Tells the table the smaller cut of every glyph that has one, going
/// by the names of the glyphs, which are given in the order of their
/// numbers.
pub fn learn_halves(table: &mut FontTable, names: &Vec<String>)
    requires
        names@.len() <= u32::MAX,
    ensures
        forall|s: u32| #[trigger] final(table).glyph_for(s) == old(table).glyph_for(s),
        forall|g: u32| #[trigger] final(table).extents_for(g) == old(table).extents_for(g),
        forall|g: u32|
            g >= names@.len() || !has_half(names@, g as int) ==> #[trigger] final(table).half_for(
                g,
            ) == old(table).half_for(g),
        forall|g: u32|
            g < names@.len() && has_half(names@, g as int) ==> is_half_of(
                names@,
                g as int,
                #[trigger] final(table).half_for(g) as int,
            ),
{
    let mut id: usize = 0;
    while id < names.len()
        invariant
            names@.len() <= u32::MAX,
            id <= names@.len(),
            forall|s: u32| #[trigger] table.glyph_for(s) == old(table).glyph_for(s),
            forall|g: u32| #[trigger] table.extents_for(g) == old(table).extents_for(g),
            forall|g: u32|
                g >= id || !has_half(names@, g as int) ==> #[trigger] table.half_for(g) == old(
                    table,
                ).half_for(g),
            forall|g: u32|
                g < id && has_half(names@, g as int) ==> is_half_of(
                    names@,
                    g as int,
                    #[trigger] table.half_for(g) as int,
                ),
        decreases names@.len() - id,
    {
        match find_half(names, id) {
            Some(half) => {
                assert(has_half(names@, id as int)) by {
                    assert(is_half_of(names@, id as int, half as int));
                }
                table.set_half(id as u32, half as u32);
            },
            None => {},
        }
        id = id + 1;
    }
}

/// The glyphs of the first `n` clusters, each laid out in a square of
/// side `advance` and numbered from `first` on.
pub open spec fn clusters_laid(
    table: FontTable,
    clusters: Seq<Box<Expr>>,
    advance: int,
    first: int,
    n: int,
) -> Seq<Glyph>
    decreases n,
{
    if n <= 0 {
        Seq::empty()
    } else {
        clusters_laid(table, clusters, advance, first, n - 1) + glyphs_in(
            table,
            slots_of(
                *clusters[n - 1],
                Cell { width: advance as i32, height: advance as i32, x: 0, y: 0 },
                false,
            ),
            advance,
            (first + n - 1) as u32,
            true,
        )
    }
}

/// Lays out a text of hieroglyphs: every cluster in a square of side
/// `advance`, one after another, numbered from 0 on.
pub fn shape(clusters: &Vec<Box<Expr>>, table: FontTable, advance: i32) -> (glyphs: Vec<Glyph>)
    requires
        -CELL_LIMIT <= advance <= CELL_LIMIT,
        clusters@.len() <= u32::MAX,
    ensures
        glyphs@ == clusters_laid(table, clusters@, advance as int, 0, clusters@.len() as int),
{
    let mut engine = LayoutEngine::new(table, advance);
    let mut i: usize = 0;
    while i < clusters.len()
        invariant
            clusters@.len() <= u32::MAX,
            i <= clusters@.len(),
            engine.wf(),
            engine.table == table,
            engine.advance == advance,
            engine.cluster == i,
            engine.is_first_glyph,
            engine.glyphs@ == clusters_laid(table, clusters@, advance as int, 0, i as int),
        decreases clusters@.len() - i,
    {
        engine.layout_cluster(&clusters[i]);
        i = i + 1;
    }
    engine.glyphs
}

} // verus!
