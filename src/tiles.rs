use std::rc::Rc;

use vstd::arithmetic::div_mod::lemma_div_is_ordered;
use vstd::prelude::*;

use crate::animation::share;
use crate::texture::CpuTexture;
use crate::types::{Rect, Vec2i};

verus! {

/// Side of a square tile, in world units and in texture pixels.
pub const TILE_SZ: usize = 16;

/// A tile kind: a solid block, or a triangular spike.
#[derive(Clone, Copy, PartialEq, Eq, Structural, Debug)]
pub struct Tile {
    pub solid: bool,
    pub triangle: bool,
}

/// A set of tiles shared by several tilemaps, with the image they are cut from.
pub struct Tileset {
    pub tiles: Vec<Tile>,
    pub texture: Rc<CpuTexture>,
}

/// An index into a tileset.
#[derive(Clone, Copy, PartialEq, Eq, Structural, Debug)]
pub struct TileID(usize);

impl TileID {
    pub closed spec fn index(&self) -> nat {
        self.0 as nat
    }

    pub fn get(&self) -> (i: usize)
        ensures
            i == self.index(),
    {
        self.0
    }
}

/// Texture rectangle of tile `index` in a texture `width` pixels wide, whose
/// tiles are laid out left to right, then top to bottom.
pub open spec fn tile_frame(width: nat, index: nat) -> Rect {
    let per_row = width / (TILE_SZ as nat);
    Rect {
        x: ((index % per_row) * TILE_SZ as nat) as i32,
        y: ((index / per_row) * TILE_SZ as nat) as i32,
        w: TILE_SZ as u16,
        h: TILE_SZ as u16,
    }
}

impl Tileset {
    pub fn new(tiles: Vec<Tile>, texture: &Rc<CpuTexture>) -> (s: Self)
        ensures
            s.tiles@ == tiles@,
            s.texture == *texture,
    {
        Self { tiles, texture: share(texture) }
    }

    /// The tile that `id` names.
    pub fn tile(&self, id: TileID) -> (t: Tile)
        requires
            self.has(id),
        ensures
            t == self.tiles@[id.index() as int],
    {
        self.tiles[id.0]
    }

    pub open spec fn has(&self, id: TileID) -> bool {
        id.index() < self.tiles@.len()
    }

    /// Whether `id` names a tile of this set.
    pub fn contains(&self, id: TileID) -> (r: bool)
        ensures
            r == self.has(id),
    {
        id.0 < self.tiles.len()
    }

    /// The texture rectangle that shows tile `id`.
    pub fn get_rect(&self, id: TileID) -> (r: Rect)
        requires
            self.has(id),
            self.texture.wf(),
            self.texture.width() >= TILE_SZ,
            self.tiles@.len() * TILE_SZ <= i32::MAX,
        ensures
            r == tile_frame(self.texture.width(), id.index()),
    {
        let idx = id.0;
        let (w, _h) = self.texture.size();
        let tw = w / TILE_SZ;
        let row = idx / tw;
        proof {
            assert(row * tw <= idx) by (nonlinear_arith)
                requires
                    row == idx / tw,
                    tw > 0,
            ;
            assert(idx - row * tw == idx % tw) by (nonlinear_arith)
                requires
                    row == idx / tw,
                    tw > 0,
            ;
            assert(idx % tw < tw) by (nonlinear_arith)
                requires
                    tw > 0,
            ;
            assert(tw * 16 <= w) by (nonlinear_arith)
                requires
                    tw == w / 16,
            ;
            assert(row <= idx) by (nonlinear_arith)
                requires
                    row == idx / tw,
                    tw > 0,
            ;
        }
        let col = idx - (row * tw);
        Rect { x: (col * TILE_SZ) as i32, y: (row * TILE_SZ) as i32, w: TILE_SZ as u16, h: TILE_SZ as u16 }
    }
}

/// The tile row or column at offset `n` from the map's origin, clamped to
/// `0..=hi`.
pub open spec fn clamp_tiles(n: int, hi: int) -> int {
    if n < 0 {
        0
    } else if n / (TILE_SZ as int) > hi {
        hi
    } else {
        n / (TILE_SZ as int)
    }
}

/// A rectangular grid of tile IDs, stored row after row, placed in the world.
pub struct Tilemap {
    pub position: Vec2i,
    dims: (usize, usize),
    pub tileset: Rc<Tileset>,
    map: Vec<TileID>,
}

impl Tilemap {
    /// World point of the map's top-left corner.
    pub closed spec fn origin(&self) -> Vec2i {
        self.position
    }

    /// The tileset the IDs index into.
    pub closed spec fn set(&self) -> Tileset {
        *self.tileset
    }
    /// Width and height, in tiles.
    pub closed spec fn dims(&self) -> (usize, usize) {
        self.dims
    }

    /// The tile IDs, row after row.
    pub closed spec fn grid(&self) -> Seq<TileID> {
        self.map@
    }

    /// The grid has `width * height` entries, each naming a tile of the set,
    /// and the map's world extent fits in `i32`.
    pub open spec fn wf(&self) -> bool {
        &&& self.dims().0 * self.dims().1 == self.grid().len()
        &&& forall|i: int|
            0 <= i < self.grid().len() ==> #[trigger] self.set().has(self.grid()[i])
        &&& self.origin().0 + self.dims().0 * TILE_SZ <= i32::MAX
        &&& self.origin().1 + self.dims().1 * TILE_SZ <= i32::MAX
    }

    /// The point lies on one of the map's tiles (edges on the origin side
    /// included).
    pub open spec fn in_bounds(&self, p: Vec2i) -> bool {
        &&& self.origin().0 <= p.0 < self.origin().0 + self.dims().0 * TILE_SZ
        &&& self.origin().1 <= p.1 < self.origin().1 + self.dims().1 * TILE_SZ
    }

    /// The point lies strictly inside the map's world bounds.
    pub open spec fn contains_point(&self, p: Vec2i) -> bool {
        &&& self.origin().0 < p.0 < self.origin().0 + self.dims().0 * TILE_SZ
        &&& self.origin().1 < p.1 < self.origin().1 + self.dims().1 * TILE_SZ
    }

    pub open spec fn col_of(&self, p: Vec2i) -> int {
        (p.0 - self.origin().0) / (TILE_SZ as int)
    }

    pub open spec fn row_of(&self, p: Vec2i) -> int {
        (p.1 - self.origin().1) / (TILE_SZ as int)
    }

    /// ID of the tile in column `c` and row `r`.
    pub open spec fn id_in(&self, c: int, r: int) -> TileID {
        self.grid()[r * self.dims().0 + c]
    }

    /// ID of the tile under point `p`.
    pub open spec fn id_at(&self, p: Vec2i) -> TileID {
        self.id_in(self.col_of(p), self.row_of(p))
    }

    /// The tile under point `p`.
    pub open spec fn tile_under(&self, p: Vec2i) -> Tile {
        self.set().tiles@[self.id_at(p).index() as int]
    }

    /// World rectangle of the tile under point `p`.
    pub open spec fn rect_under(&self, p: Vec2i) -> Rect {
        Rect {
            x: (self.origin().0 + self.col_of(p) * TILE_SZ) as i32,
            y: (self.origin().1 + self.row_of(p) * TILE_SZ) as i32,
            w: TILE_SZ as u16,
            h: TILE_SZ as u16,
        }
    }

    pub fn new(position: Vec2i, dims: (usize, usize), tileset: &Rc<Tileset>, map: Vec<usize>) -> (t:
        Self)
        requires
            dims.0 * dims.1 == map@.len(),
            forall|i: int| 0 <= i < map@.len() ==> map@[i] < tileset.tiles@.len(),
            position.0 + dims.0 * TILE_SZ <= i32::MAX,
            position.1 + dims.1 * TILE_SZ <= i32::MAX,
        ensures
            t.wf(),
            t.origin() == position,
            t.dims() == dims,
            t.set() == **tileset,
            t.grid().len() == map@.len(),
            forall|i: int| 0 <= i < map@.len() ==> #[trigger] t.grid()[i].index() == map@[i],
    {
        let mut ids: Vec<TileID> = Vec::new();
        let mut i: usize = 0;
        while i < map.len()
            invariant
                i <= map@.len(),
                ids@.len() == i,
                forall|j: int| 0 <= j < i ==> #[trigger] ids@[j].index() == map@[j],
            decreases map@.len() - i,
        {
            ids.push(TileID(map[i]));
            i = i + 1;
        }
        let t = Self { position, dims, tileset: share(tileset), map: ids };
        proof {
            assert forall|i: int| 0 <= i < t.grid().len() implies #[trigger] t.tileset.has(
                t.grid()[i],
            ) by {
                assert(t.grid()[i].index() == map@[i]);
            }
        }
        t
    }

    /// Column and row of a point on the map, and its index in the grid.
    fn cell(&self, p: Vec2i) -> (r: (usize, usize, usize))
        requires
            self.wf(),
            self.in_bounds(p),
        ensures
            r.0 == self.col_of(p),
            r.1 == self.row_of(p),
            r.0 < self.dims().0,
            r.1 < self.dims().1,
            r.2 == r.1 * self.dims().0 + r.0,
            r.2 < self.grid().len(),
    {
        let col = ((p.0 as i64 - self.position.0 as i64) as usize) / TILE_SZ;
        let row = ((p.1 as i64 - self.position.1 as i64) as usize) / TILE_SZ;
        proof {
            let w = self.dims.0 as int;
            let h = self.dims.1 as int;
            assert(col < w);
            assert(row < h);
            assert(row * w + col < w * h) by (nonlinear_arith)
                requires
                    0 <= col < w,
                    0 <= row < h,
            ;
        }
        let n = self.map.len();
        (col, row, row * self.dims.0 + col)
    }

    pub fn tile_id_at(&self, p: Vec2i) -> (id: TileID)
        requires
            self.wf(),
            self.in_bounds(p),
        ensures
            id == self.id_at(p),
            self.set().has(id),
    {
        let (_c, _r, k) = self.cell(p);
        self.map[k]
    }

    /// Width and height, in tiles.
    pub fn size(&self) -> (d: (usize, usize))
        ensures
            d == self.dims(),
    {
        self.dims
    }

    pub fn tile_at(&self, p: Vec2i) -> (t: Tile)
        requires
            self.wf(),
            self.in_bounds(p),
        ensures
            t == self.tile_under(p),
    {
        let id = self.tile_id_at(p);
        self.tileset.tile(id)
    }

    pub fn contains(&self, p: Vec2i) -> (r: bool)
        requires
            self.wf(),
        ensures
            r == self.contains_point(p),
    {
        let right = self.position.0 as i64 + (self.dims.0 * TILE_SZ) as i64;
        let bottom = self.position.1 as i64 + (self.dims.1 * TILE_SZ) as i64;
        p.0 > self.position.0 && (p.0 as i64) < right && p.1 > self.position.1 && (p.1 as i64)
            < bottom
    }

    pub fn get_tile_rect(&self, p: Vec2i) -> (r: Rect)
        requires
            self.wf(),
            self.in_bounds(p),
        ensures
            r == self.rect_under(p),
    {
        let (c, r, _k) = self.cell(p);
        Rect {
            x: (self.position.0 as i64 + (c * TILE_SZ) as i64) as i32,
            y: (self.position.1 as i64 + (r * TILE_SZ) as i64) as i32,
            w: TILE_SZ as u16,
            h: TILE_SZ as u16,
        }
    }

    /// What drawing the tile in column `c` and row `r` copies: the texture
    /// rectangle of its tile, and the world point it goes to.
    pub open spec fn blit(&self, c: int, r: int) -> (Rect, Vec2i) {
        (
            tile_frame(self.set().texture.width(), self.id_in(c, r).index()),
            Vec2i((c * TILE_SZ + self.origin().0) as i32, (r * TILE_SZ + self.origin().1) as i32),
        )
    }

    /// The blits of row `r`, columns `left..right`.
    pub open spec fn row_blits(&self, r: int, left: int, right: int) -> Seq<(Rect, Vec2i)> {
        Seq::new((right - left) as nat, |i: int| self.blit(left + i, r))
    }

    /// The blits of rows `top..bot`, row after row.
    pub open spec fn rows_blits(&self, top: int, bot: int, left: int, right: int) -> Seq<
        (Rect, Vec2i),
    >
        decreases bot - top,
    {
        if bot <= top {
            Seq::empty()
        } else {
            self.rows_blits(top, bot - 1, left, right) + self.row_blits(bot - 1, left, right)
        }
    }

    /// The blits that draw the part of the map seen through `screen`.
    pub open spec fn visible_blits(&self, screen: Rect) -> Seq<(Rect, Vec2i)> {
        self.rows_blits(
            clamp_tiles(screen.y - self.origin().1, self.dims().1 as int),
            clamp_tiles(screen.y + screen.h - self.origin().1, self.dims().1 as int),
            clamp_tiles(screen.x - self.origin().0, self.dims().0 as int),
            clamp_tiles(screen.x + screen.w - self.origin().0, self.dims().0 as int),
        )
    }

    /// The tiles within `screen`, from the topmost and leftmost visible one to
    /// the bottommost and rightmost, each as the texture rectangle to copy and
    /// the world point to copy it to.
    pub fn draw(&self, screen: Rect) -> (blits: Vec<(Rect, Vec2i)>)
        requires
            self.wf(),
            self.set().texture.wf(),
            self.set().texture.width() >= TILE_SZ,
            self.set().tiles@.len() * TILE_SZ <= i32::MAX,
        ensures
            blits@ == self.visible_blits(screen),
    {
        let left = clamp_offset(screen.x as i64 - self.position.0 as i64, self.dims.0);
        let right = clamp_offset(
            screen.x as i64 + screen.w as i64 - self.position.0 as i64,
            self.dims.0,
        );
        let top = clamp_offset(screen.y as i64 - self.position.1 as i64, self.dims.1);
        let bot = clamp_offset(
            screen.y as i64 + screen.h as i64 - self.position.1 as i64,
            self.dims.1,
        );
        proof {
            lemma_clamp_tiles_monotone(
                screen.x - self.position.0,
                screen.x + screen.w - self.position.0,
                self.dims.0 as int,
            );
            lemma_clamp_tiles_monotone(
                screen.y - self.position.1,
                screen.y + screen.h - self.position.1,
                self.dims.1 as int,
            );
        }
        let mut blits: Vec<(Rect, Vec2i)> = Vec::new();
        let mut y: usize = top;
        while y < bot
            invariant
                self.wf(),
                self.set().texture.wf(),
                self.set().texture.width() >= TILE_SZ,
                self.set().tiles@.len() * TILE_SZ <= i32::MAX,
                top <= bot <= self.dims().1,
                left <= self.dims().0,
                right <= self.dims().0,
                top <= y <= bot,
                left <= right,
                blits@ == self.rows_blits(top as int, y as int, left as int, right as int),
            decreases bot - y,
        {
            let mut x: usize = left;
            while x < right
                invariant
                    self.wf(),
                    self.set().texture.wf(),
                    self.set().texture.width() >= TILE_SZ,
                    self.set().tiles@.len() * TILE_SZ <= i32::MAX,
                    top <= y < bot <= self.dims().1,
                    left <= self.dims().0,
                    right <= self.dims().0,
                    left <= x <= right,
                    blits@ == self.rows_blits(top as int, y as int, left as int, right as int)
                        + self.row_blits(y as int, left as int, right as int).take(
                        x - left,
                    ),
                decreases right - x,
            {
                let ghost before = blits@;
                proof {
                    let w = self.dims.0 as int;
                    let h = self.dims.1 as int;
                    assert((y as int) * w + (x as int) < w * h) by (nonlinear_arith)
                        requires
                            0 <= x < w,
                            0 <= y < h,
                    ;
                    assert(0 <= (y as int) * w + (x as int));
                }
                let n = self.map.len();
                let id = self.map[y * self.dims.0 + x];
                let frame = self.tileset.get_rect(id);
                let dest = Vec2i(
                    ((x * TILE_SZ) as i64 + self.position.0 as i64) as i32,
                    ((y * TILE_SZ) as i64 + self.position.1 as i64) as i32,
                );
                blits.push((frame, dest));
                proof {
                    let row = self.row_blits(y as int, left as int, right as int);
                    assert(row.take(x + 1 - left) =~= row.take(x - left).push(row[x - left]));
                    assert(blits@ =~= before.push((frame, dest)));
                }
                x = x + 1;
            }
            proof {
                let row = self.row_blits(y as int, left as int, right as int);
                assert(row.take(x - left) =~= row);
            }
            y = y + 1;
        }
        blits
    }
}

/// Clamped tile counts grow with the offset.
pub proof fn lemma_clamp_tiles_monotone(n: int, m: int, hi: int)
    requires
        n <= m,
        hi >= 0,
    ensures
        clamp_tiles(n, hi) <= clamp_tiles(m, hi),
{
    if n >= 0 {
        lemma_div_is_ordered(n, m, TILE_SZ as int);
    }
}

/// `clamp_tiles` on a machine integer.
fn clamp_offset(n: i64, hi: usize) -> (r: usize)
    requires
        hi <= i32::MAX,
    ensures
        r == clamp_tiles(n as int, hi as int),
        r <= hi,
{
    if n < 0 {
        0
    } else if (n as u64 / TILE_SZ as u64) > hi as u64 {
        hi
    } else {
        (n as u64 / TILE_SZ as u64) as usize
    }
}

} // verus!
