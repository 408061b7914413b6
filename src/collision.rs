use vstd::prelude::*;

use std::rc::Rc;

use crate::animation::{lemma_fresh, Animation, AnimationState};
use crate::state::{EntityAnims, EntityState};
use crate::tiles::{Tilemap, TILE_SZ};
use crate::types::{Rect, Vec2i};

verus! {

pub open spec fn min(a: int, b: int) -> int {
    if a <= b {
        a
    } else {
        b
    }
}

pub open spec fn max(a: int, b: int) -> int {
    if a >= b {
        a
    } else {
        b
    }
}

/// -1, 0 or 1, after the sign of `v`.
pub open spec fn sign(v: int) -> int {
    if v > 0 {
        1
    } else if v < 0 {
        -1
    } else {
        0
    }
}

/// Length of the shared extent of two rectangles along x (negative when they
/// are apart).
pub open spec fn overlap_x(a: Rect, b: Rect) -> int {
    min(a.x + a.w, b.x + b.w) - max(a.x as int, b.x as int)
}

/// Length of the shared extent of two rectangles along y.
pub open spec fn overlap_y(a: Rect, b: Rect) -> int {
    min(a.y + a.h, b.y + b.h) - max(a.y as int, b.y as int)
}

/// The rectangles meet: they overlap or share an edge.
pub open spec fn rects_meet(a: Rect, b: Rect) -> bool {
    overlap_x(a, b) >= 0 && overlap_y(a, b) >= 0
}

/// The rectangles share an area of positive size.
pub open spec fn rects_overlap(a: Rect, b: Rect) -> bool {
    overlap_x(a, b) > 0 && overlap_y(a, b) > 0
}

/// The overlap of two rectangles along each axis, when they meet.
pub open spec fn displacement(a: Rect, b: Rect) -> Option<(i32, i32)> {
    if rects_meet(a, b) {
        Some((overlap_x(a, b) as i32, overlap_y(a, b) as i32))
    } else {
        None
    }
}

/// Edge-ordering test: each rectangle starts before the other ends, on both
/// axes.
pub open spec fn rects_touch(a: Rect, b: Rect) -> bool {
    &&& a.x <= b.x + b.w
    &&& b.x <= a.x + a.w
    &&& a.y <= b.y + b.h
    &&& b.y <= a.y + a.h
}

/// The edge-ordering test and the overlap test agree, and neither depends on
/// the order of the two rectangles.
pub proof fn lemma_touch_iff_meet(a: Rect, b: Rect)
    ensures
        rects_touch(a, b) == rects_meet(a, b),
        rects_meet(a, b) == rects_meet(b, a),
        rects_overlap(a, b) == rects_overlap(b, a),
        displacement(a, b) == displacement(b, a),
{
}

fn min_i64(a: i64, b: i64) -> (r: i64)
    ensures
        r == min(a as int, b as int),
{
    if a <= b {
        a
    } else {
        b
    }
}

fn max_i64(a: i64, b: i64) -> (r: i64)
    ensures
        r == max(a as int, b as int),
{
    if a >= b {
        a
    } else {
        b
    }
}

/// Sign of `v`: -1, 0 or 1.
pub fn signum(v: i64) -> (r: i64)
    ensures
        r == sign(v as int),
{
    if v > 0 {
        1
    } else if v < 0 {
        -1
    } else {
        0
    }
}

/// Whether the edge-ordering test holds.
pub fn rect_touching(r1: &Rect, r2: &Rect) -> (r: bool)
    ensures
        r == rects_touch(*r1, *r2),
{
    r1.x as i64 <= r2.x as i64 + r2.w as i64 && r2.x as i64 <= r1.x as i64 + r1.w as i64 && r1.y
        as i64 <= r2.y as i64 + r2.h as i64 && r2.y as i64 <= r1.y as i64 + r1.h as i64
}

/// The overlap along each axis, when the rectangles meet.
pub fn rect_displacement(r1: &Rect, r2: &Rect) -> (r: Option<(i32, i32)>)
    ensures
        r == displacement(*r1, *r2),
        r matches Some(d) ==> 0 <= d.0 <= r1.w && d.0 <= r2.w && 0 <= d.1 <= r1.h && d.1 <= r2.h,
{
    let x_overlap = min_i64(r1.x as i64 + r1.w as i64, r2.x as i64 + r2.w as i64) - max_i64(
        r1.x as i64,
        r2.x as i64,
    );
    let y_overlap = min_i64(r1.y as i64 + r1.h as i64, r2.y as i64 + r2.h as i64) - max_i64(
        r1.y as i64,
        r2.y as i64,
    );
    if x_overlap >= 0 && y_overlap >= 0 {
        Some((x_overlap as i32, y_overlap as i32))
    } else {
        None
    }
}

/// A wall that an entity ran into this frame, with the overlap along each
/// axis at the time it was found.
#[derive(Clone, Copy, Debug)]
pub struct WallContact {
    pub wall_rect: Rect,
    pub entity_id: usize,
    pub contact: (i32, i32),
}

/// The corners of a rectangle: top-left, top-right, bottom-left, bottom-right.
pub open spec fn corner_points(e: Rect) -> Seq<Vec2i> {
    seq![
        Vec2i(e.x, e.y),
        Vec2i((e.x + e.w) as i32, e.y),
        Vec2i(e.x, (e.y + e.h) as i32),
        Vec2i((e.x + e.w) as i32, (e.y + e.h) as i32),
    ]
}

/// The corners of the rectangle are points of `i32`.
pub open spec fn corners_fit(e: Rect) -> bool {
    e.x + e.w <= i32::MAX && e.y + e.h <= i32::MAX
}

/// Twice the signed area of the triangle `o`, `o + a`, `o + b`.
pub open spec fn cross(a: (int, int), b: (int, int)) -> int {
    a.0 * b.1 - b.0 * a.1
}

/// `p` lies on the same side of all three edges of the triangle whose
/// vertices are the top-centre, bottom-left and bottom-right of `r`.
pub open spec fn in_triangle(p: Vec2i, r: Rect) -> bool {
    let a = (r.x + r.w / 2, r.y as int);
    let b = (r.x as int, r.y + r.h);
    let c = (r.x + r.w, r.y + r.h);
    let c1 = cross((b.0 - a.0, b.1 - a.1), (p.0 - a.0, p.1 - a.1));
    let c2 = cross((c.0 - b.0, c.1 - b.1), (p.0 - b.0, p.1 - b.1));
    let c3 = cross((a.0 - c.0, a.1 - c.1), (p.0 - c.0, p.1 - c.1));
    sign(c1) == sign(c2) && sign(c1) == sign(c3)
}

/// A corner of the map's grid on which the entity can be hurt or stopped:
/// a solid tile or a spike.
pub open spec fn blocks(map: Tilemap, p: Vec2i) -> bool {
    map.contains_point(p) && (map.tile_under(p).solid || map.tile_under(p).triangle)
}

/// The corner `p` lies in a spike of `map`.
pub open spec fn spiked(map: Tilemap, p: Vec2i) -> bool {
    blocks(map, p) && map.tile_under(p).triangle && in_triangle(p, map.rect_under(p))
}

/// The contacts that one map gives for corner `p` of entity `e`: its solid
/// tile under `p`, when that tile is no spike and meets `e`.
pub open spec fn map_contacts(map: Tilemap, p: Vec2i, e: Rect, id: usize) -> Seq<WallContact> {
    if blocks(map, p) && !map.tile_under(p).triangle && displacement(
        e,
        map.rect_under(p),
    ) is Some {
        seq![
            WallContact {
                wall_rect: map.rect_under(p),
                entity_id: id,
                contact: displacement(e, map.rect_under(p))->Some_0,
            },
        ]
    } else {
        Seq::empty()
    }
}

/// The contacts of corner `p` over the maps, in the maps' order.
pub open spec fn corner_contacts(maps: Seq<Tilemap>, p: Vec2i, e: Rect, id: usize) -> Seq<
    WallContact,
>
    decreases maps.len(),
{
    if maps.len() == 0 {
        Seq::empty()
    } else {
        corner_contacts(maps.drop_last(), p, e, id) + map_contacts(maps.last(), p, e, id)
    }
}

/// The contacts of the corners `ps`, corner after corner.
pub open spec fn contacts_of(maps: Seq<Tilemap>, ps: Seq<Vec2i>, e: Rect, id: usize) -> Seq<
    WallContact,
>
    decreases ps.len(),
{
    if ps.len() == 0 {
        Seq::empty()
    } else {
        contacts_of(maps, ps.drop_last(), e, id) + corner_contacts(maps, ps.last(), e, id)
    }
}

/// Some corner among `ps` lies in a spike of some map.
pub open spec fn spiked_any(maps: Seq<Tilemap>, ps: Seq<Vec2i>) -> bool {
    exists|i: int, j: int| 0 <= i < ps.len() && 0 <= j < maps.len() && spiked(maps[j], ps[i])
}

/// Every map is well formed.
pub open spec fn maps_wf(maps: Seq<Tilemap>) -> bool {
    forall|j: int| 0 <= j < maps.len() ==> (#[trigger] maps[j]).wf()
}

pub fn cross_product(a: Vec2i, b: Vec2i) -> (r: i32)
    requires
        -0x4000 <= a.0 <= 0x4000,
        -0x4000 <= a.1 <= 0x4000,
        -0x4000 <= b.0 <= 0x4000,
        -0x4000 <= b.1 <= 0x4000,
    ensures
        r == cross((a.0 as int, a.1 as int), (b.0 as int, b.1 as int)),
{
    let Vec2i(x1, y1) = a;
    let Vec2i(x2, y2) = b;
    proof {
        assert(-0x1000_0000 <= x1 * y2 <= 0x1000_0000) by (nonlinear_arith)
            requires
                -0x4000 <= x1 <= 0x4000,
                -0x4000 <= y2 <= 0x4000,
        ;
        assert(-0x1000_0000 <= x2 * y1 <= 0x1000_0000) by (nonlinear_arith)
            requires
                -0x4000 <= x2 <= 0x4000,
                -0x4000 <= y1 <= 0x4000,
        ;
    }
    x1 * y2 - x2 * y1
}

/// Whether `p`, a point of the rectangle `r`, lies in the triangle of `r`
/// (see `in_triangle`).
pub fn triangle_collision(p: Vec2i, r: Rect) -> (hit: bool)
    requires
        r.x <= p.0 <= r.x + r.w,
        r.y <= p.1 <= r.y + r.h,
        r.w <= 0x2000,
        r.h <= 0x2000,
        r.x + r.w <= i32::MAX,
        r.y + r.h <= i32::MAX,
    ensures
        hit == in_triangle(p, r),
{
    let Rect { x, y, w, h } = r;
    let a = Vec2i(x + (w as i32) / 2, y);
    let b = Vec2i(x, y + h as i32);
    let c = Vec2i(x + w as i32, y + h as i32);

    let ab = Vec2i(b.0 - a.0, b.1 - a.1);
    let bc = Vec2i(c.0 - b.0, c.1 - b.1);
    let ca = Vec2i(a.0 - c.0, a.1 - c.1);

    let ap = Vec2i(p.0 - a.0, p.1 - a.1);
    let bp = Vec2i(p.0 - b.0, p.1 - b.1);
    let cp = Vec2i(p.0 - c.0, p.1 - c.1);

    let cp1 = cross_product(ab, ap);
    let cp2 = cross_product(bc, bp);
    let cp3 = cross_product(ca, cp);
    signum(cp1 as i64) == signum(cp2 as i64) && signum(cp1 as i64) == signum(cp3 as i64)
}

/// A tile's corner point lies inside the tile's rectangle.
pub proof fn lemma_point_in_tile_rect(map: Tilemap, p: Vec2i)
    requires
        map.wf(),
        map.in_bounds(p),
    ensures
        map.rect_under(p).x <= p.0 < map.rect_under(p).x + TILE_SZ,
        map.rect_under(p).y <= p.1 < map.rect_under(p).y + TILE_SZ,
        map.rect_under(p).x + TILE_SZ <= i32::MAX,
        map.rect_under(p).y + TILE_SZ <= i32::MAX,
        map.rect_under(p).x >= map.origin().0,
        map.rect_under(p).y >= map.origin().1,
{
    let dx = p.0 - map.origin().0;
    let dy = p.1 - map.origin().1;
    assert(0 <= dx - (dx / 16) * 16 < 16) by (nonlinear_arith)
        requires
            dx >= 0,
    ;
    assert(0 <= dy - (dy / 16) * 16 < 16) by (nonlinear_arith)
        requires
            dy >= 0,
    ;
    assert((dx / 16) * 16 + 16 <= map.dims().0 * 16) by (nonlinear_arith)
        requires
            0 <= dx < map.dims().0 * 16,
    ;
    assert((dy / 16) * 16 + 16 <= map.dims().1 * 16) by (nonlinear_arith)
        requires
            0 <= dy < map.dims().1 * 16,
    ;
}

/// Samples the four corners of `entity` against every map. A corner in a
/// spike makes the frame fatal; a corner on a solid tile that meets the
/// entity adds a contact with that tile. Returns whether the frame is fatal.
pub fn gather_contacts(
    walls: &Vec<Tilemap>,
    entity: &Rect,
    entity_id: usize,
    contacts: &mut Vec<WallContact>,
) -> (game_over: bool)
    requires
        maps_wf(walls@),
        corners_fit(*entity),
    ensures
        final(contacts)@ == old(contacts)@ + contacts_of(walls@, corner_points(*entity), *entity, entity_id),
        game_over == spiked_any(walls@, corner_points(*entity)),
{
    let mut game_over = false;
    let corners: Vec<Vec2i> = vec![
        Vec2i(entity.x, entity.y),
        Vec2i(entity.x + entity.w as i32, entity.y),
        Vec2i(entity.x, entity.y + entity.h as i32),
        Vec2i(entity.x + entity.w as i32, entity.y + entity.h as i32),
    ];
    let ghost cs = corner_points(*entity);
    let ghost start = contacts@;
    proof {
        assert(corners@ =~= cs);
    }
    let mut i: usize = 0;
    while i < corners.len()
        invariant
            corners@ == cs,
            cs.len() == 4,
            i <= 4,
            maps_wf(walls@),
            contacts@ == start + contacts_of(walls@, cs.take(i as int), *entity, entity_id),
            game_over == spiked_any(walls@, cs.take(i as int)),
        decreases 4 - i,
    {
        let corner = corners[i];
        let ghost before = contacts@;
        let ghost over_before = game_over;
        let mut j: usize = 0;
        while j < walls.len()
            invariant
                corners@ == cs,
                cs.len() == 4,
                i < 4,
                corner == cs[i as int],
                j <= walls@.len(),
                maps_wf(walls@),
                contacts@ == before + corner_contacts(walls@.take(j as int), corner, *entity, entity_id),
                game_over == (over_before || exists|jj: int|
                    0 <= jj < j && spiked(walls@[jj], corner)),
            decreases walls@.len() - j,
        {
            let map = &walls[j];
            let ghost prev = contacts@;
            proof {
                assert(walls@.take(j + 1).drop_last() =~= walls@.take(j as int));
                assert(map.wf());
            }
            if map.contains(corner) && (map.tile_at(corner).solid || map.tile_at(corner).triangle) {
                let tile = map.tile_at(corner);
                let wall_rect = map.get_tile_rect(corner);
                proof {
                    lemma_point_in_tile_rect(*map, corner);
                }
                if tile.triangle {
                    if triangle_collision(corner, wall_rect) {
                        game_over = true;
                    }
                } else {
                    match rect_displacement(entity, &wall_rect) {
                        Some(contact) => {
                            contacts.push(WallContact { wall_rect, entity_id, contact });
                        },
                        None => {},
                    }
                }
            }
            proof {
                assert(contacts@ =~= prev + map_contacts(walls@[j as int], corner, *entity, entity_id));
                assert(contacts@ =~= before + corner_contacts(
                    walls@.take(j + 1),
                    corner,
                    *entity,
                    entity_id,
                ));
                if game_over && !over_before {
                    if !spiked(walls@[j as int], corner) {
                        let jj = choose|jj: int| 0 <= jj < j && spiked(walls@[jj], corner);
                        assert(0 <= jj < j + 1 && spiked(walls@[jj], corner));
                    }
                }
            }
            j = j + 1;
        }
        proof {
            assert(walls@.take(j as int) =~= walls@);
            assert(cs.take(i + 1).drop_last() =~= cs.take(i as int));
            assert(cs.take(i + 1).last() == corner);
            if game_over {
                if over_before {
                    let (ii, jj) = choose|ii: int, jj: int|
                        0 <= ii < i && 0 <= jj < walls@.len() && spiked(walls@[jj], cs.take(i as int)[ii]);
                    assert(cs.take(i + 1)[ii] == cs.take(i as int)[ii]);
                } else {
                    let jj = choose|jj: int| 0 <= jj < j && spiked(walls@[jj], corner);
                    assert(cs.take(i + 1)[i as int] == corner);
                }
            } else {
                assert forall|ii: int, jj: int|
                    0 <= ii < i + 1 && 0 <= jj < walls@.len() implies !#[trigger] spiked(
                    walls@[jj],
                    cs.take(i + 1)[ii],
                ) by {
                    if ii < i {
                        assert(cs.take(i + 1)[ii] == cs.take(i as int)[ii]);
                    }
                }
            }
        }
        i = i + 1;
    }
    proof {
        assert(cs.take(4) =~= cs);
    }
    game_over
}

/// Whether `entity` meets any of `enemies`.
pub open spec fn killed_by(entity: Rect, enemies: Seq<Rect>) -> bool {
    exists|i: int| 0 <= i < enemies.len() && rects_meet(entity, enemies[i])
}

/// Whether `entity` meets any of `enemies` (shares an edge or an area with it).
pub fn killed(entity: &Rect, enemies: &[Rect]) -> (r: bool)
    ensures
        r == killed_by(*entity, enemies@),
{
    let mut i: usize = 0;
    while i < enemies.len()
        invariant
            i <= enemies@.len(),
            forall|k: int| 0 <= k < i ==> !rects_meet(*entity, #[trigger] enemies@[k]),
        decreases enemies@.len() - i,
    {
        let enemy = &enemies[i];
        if rect_touching(entity, enemy) {
            match rect_displacement(entity, enemy) {
                Some(_) => {
                    return true;
                },
                None => {},
            }
        }
        proof {
            lemma_touch_iff_meet(*entity, *enemy);
        }
        i = i + 1;
    }
    false
}

/// `killed` against a single rectangle is the overlap test itself, and the
/// test does not depend on which of the two rectangles is the entity.
pub proof fn lemma_killed_single(r: Rect, other: Rect)
    ensures
        killed_by(r, seq![other]) == rects_meet(r, other),
        killed_by(r, seq![other]) == killed_by(other, seq![r]),
{
    if rects_meet(r, other) {
        assert(seq![other][0] == other);
        assert(seq![r][0] == r);
    }
}

/// The rectangle an entity of the given size occupies at `p`.
pub open spec fn body_rect(p: Vec2i, size: (usize, usize)) -> Rect {
    Rect { x: p.0, y: p.1, w: size.0 as u16, h: size.1 as u16 }
}

/// The smaller of a contact's two overlaps.
pub open spec fn min_overlap(c: WallContact) -> int {
    min(c.contact.0 as int, c.contact.1 as int)
}

/// The contact is resolved along x: its x overlap is the smaller one (ties
/// go to x).
pub open spec fn resolves_on_x(c: WallContact) -> bool {
    min_overlap(c) == c.contact.0
}

/// The contact still applies: the entity, where it stands now, meets the
/// wall, and the contact's smaller overlap is not zero.
pub open spec fn applies(ps: Seq<Vec2i>, sizes: Seq<(usize, usize)>, c: WallContact) -> bool {
    rects_meet(c.wall_rect, body_rect(ps[c.entity_id as int], sizes[c.entity_id as int]))
        && min_overlap(c) != 0
}

/// Where a contact that applies moves its entity: away from the wall's
/// origin by the smaller overlap, along the axis of the smaller overlap.
pub open spec fn pushed(p: Vec2i, c: WallContact) -> (int, int) {
    if resolves_on_x(c) {
        (p.0 + sign(p.0 - c.wall_rect.x) * min_overlap(c), p.1 as int)
    } else {
        (p.0 as int, p.1 + sign(p.1 - c.wall_rect.y) * min_overlap(c))
    }
}

/// A contact that applies is fatal when, resolved along x, its overlap is
/// more than half the entity's height, or, resolved along y, the entity
/// stands below the wall's top.
pub open spec fn crushes(p: Vec2i, size: (usize, usize), c: WallContact) -> bool {
    if resolves_on_x(c) {
        min_overlap(c) > (size.1 as int) / 2
    } else {
        p.1 - c.wall_rect.y > 0
    }
}

/// Per-entity positions, behaviours and velocities after one contact, and
/// whether the contact was fatal.
pub open spec fn resolve_one(
    ps: Seq<Vec2i>,
    ss: Seq<EntityState>,
    vs: Seq<Vec2i>,
    sizes: Seq<(usize, usize)>,
    c: WallContact,
) -> (Seq<Vec2i>, Seq<EntityState>, Seq<Vec2i>, bool) {
    let id = c.entity_id as int;
    if !applies(ps, sizes, c) {
        (ps, ss, vs, false)
    } else {
        let np = pushed(ps[id], c);
        (
            ps.update(id, Vec2i(np.0 as i32, np.1 as i32)),
            ss.update(
                id,
                if ss[id] == EntityState::Falling {
                    EntityState::Landing
                } else {
                    ss[id]
                },
            ),
            vs.update(
                id,
                if c.contact.0 >= 0 {
                    Vec2i(vs[id].0, 0)
                } else {
                    vs[id]
                },
            ),
            crushes(ps[id], sizes[id], c),
        )
    }
}

/// The contacts resolved in order: the state after each is the input of the
/// next; the result is fatal when any contact was.
pub open spec fn resolve_all(
    ps: Seq<Vec2i>,
    ss: Seq<EntityState>,
    vs: Seq<Vec2i>,
    sizes: Seq<(usize, usize)>,
    cs: Seq<WallContact>,
) -> (Seq<Vec2i>, Seq<EntityState>, Seq<Vec2i>, bool)
    decreases cs.len(),
{
    if cs.len() == 0 {
        (ps, ss, vs, false)
    } else {
        let prev = resolve_all(ps, ss, vs, sizes, cs.drop_last());
        let next = resolve_one(prev.0, prev.1, prev.2, sizes, cs.last());
        (next.0, next.1, next.2, prev.3 || next.3)
    }
}

/// Each contact names an entity of every per-entity sequence, and that
/// entity's size fits a rectangle.
pub open spec fn contacts_in_range(
    n_pos: nat,
    n_states: nat,
    n_vels: nat,
    sizes: Seq<(usize, usize)>,
    n_anims: nat,
    cs: Seq<WallContact>,
) -> bool {
    forall|k: int|
        0 <= k < cs.len() ==> {
            let id = (#[trigger] cs[k]).entity_id;
            &&& id < n_pos
            &&& id < n_states
            &&& id < n_vels
            &&& id < sizes.len()
            &&& id < n_anims
            &&& sizes[id as int].0 <= u16::MAX
            &&& sizes[id as int].1 <= u16::MAX
        }
}

/// Every move the contacts cause keeps the position within `i32`.
pub open spec fn moves_fit(
    ps: Seq<Vec2i>,
    ss: Seq<EntityState>,
    vs: Seq<Vec2i>,
    sizes: Seq<(usize, usize)>,
    cs: Seq<WallContact>,
) -> bool
    decreases cs.len(),
{
    if cs.len() == 0 {
        true
    } else {
        let prev = resolve_all(ps, ss, vs, sizes, cs.drop_last());
        let np = pushed(prev.0[cs.last().entity_id as int], cs.last());
        &&& moves_fit(ps, ss, vs, sizes, cs.drop_last())
        &&& applies(prev.0, sizes, cs.last()) ==> i32::MIN <= np.0 <= i32::MAX && i32::MIN <= np.1
            <= i32::MAX
    }
}

/// Resolving contacts keeps the lengths of the per-entity sequences.
pub proof fn lemma_resolve_all_lengths(
    ps: Seq<Vec2i>,
    ss: Seq<EntityState>,
    vs: Seq<Vec2i>,
    sizes: Seq<(usize, usize)>,
    cs: Seq<WallContact>,
)
    requires
        forall|k: int|
            0 <= k < cs.len() ==> (#[trigger] cs[k]).entity_id < ps.len() && cs[k].entity_id
                < ss.len() && cs[k].entity_id < vs.len() && cs[k].entity_id < sizes.len(),
    ensures
        resolve_all(ps, ss, vs, sizes, cs).0.len() == ps.len(),
        resolve_all(ps, ss, vs, sizes, cs).1.len() == ss.len(),
        resolve_all(ps, ss, vs, sizes, cs).2.len() == vs.len(),
        forall|i: int|
            0 <= i < ss.len() && ss[i] != EntityState::Falling ==> #[trigger] resolve_all(
                ps,
                ss,
                vs,
                sizes,
                cs,
            ).1[i] == ss[i],
        forall|i: int|
            0 <= i < ss.len() ==> (#[trigger] resolve_all(ps, ss, vs, sizes, cs).1[i] == ss[i]
                || (ss[i] == EntityState::Falling && resolve_all(ps, ss, vs, sizes, cs).1[i]
                == EntityState::Landing)),
    decreases cs.len(),
{
    if cs.len() > 0 {
        lemma_resolve_all_lengths(ps, ss, vs, sizes, cs.drop_last());
    }
}

/// Cursors after resolution: an entity that went from falling to landing
/// restarts on the landing animation; every other keeps its cursor.
pub open spec fn land_cursors(
    anims: Seq<AnimationState>,
    before: Seq<EntityState>,
    after: Seq<EntityState>,
    landing: Rc<Animation>,
) -> Seq<AnimationState> {
    Seq::new(
        anims.len(),
        |i: int|
            if i < before.len() && before[i] == EntityState::Falling && after[i]
                == EntityState::Landing {
                AnimationState::fresh(landing)
            } else {
                anims[i]
            },
    )
}

/// Resolves each contact in order against its entity's current position:
/// a contact whose wall the entity no longer meets, or whose smaller overlap
/// is zero, is skipped; otherwise the entity is pushed away from the wall
/// along the axis of the smaller overlap, a falling entity starts landing,
/// and its vertical velocity is cleared. Returns whether any contact was
/// fatal.
pub fn restitute(
    positions: &mut Vec<Vec2i>,
    states: &mut Vec<EntityState>,
    vels: &mut Vec<Vec2i>,
    sizes: &Vec<(usize, usize)>,
    contacts: &mut Vec<WallContact>,
    anims: &mut Vec<AnimationState>,
    ent_anims: &EntityAnims,
) -> (game_over: bool)
    requires
        contacts_in_range(
            old(positions)@.len(),
            old(states)@.len(),
            old(vels)@.len(),
            sizes@,
            old(anims)@.len(),
            old(contacts)@,
        ),
        moves_fit(old(positions)@, old(states)@, old(vels)@, sizes@, old(contacts)@),
        ent_anims.landing.wf(),
    ensures
        ({
            let r = resolve_all(old(positions)@, old(states)@, old(vels)@, sizes@, old(contacts)@);
            &&& final(positions)@ == r.0
            &&& final(states)@ == r.1
            &&& final(vels)@ == r.2
            &&& game_over == r.3
        }),
        final(contacts)@ == old(contacts)@,
        final(anims)@ == land_cursors(old(anims)@, old(states)@, final(states)@, ent_anims.landing),
        forall|i: int|
            0 <= i < old(states)@.len() && old(states)@[i] == EntityState::Falling
                && final(states)@[i] == EntityState::Landing && i < old(anims)@.len()
                ==> (#[trigger] final(anims)@[i]).animation() == *ent_anims.landing
                && final(anims)@[i].time() == 0,
{
    let ghost ps0 = positions@;
    let ghost ss0 = states@;
    let ghost vs0 = vels@;
    let ghost as0 = anims@;
    let ghost cs = contacts@;
    let mut game_over = false;
    let mut k: usize = 0;
    while k < contacts.len()
        invariant
            contacts@ == cs,
            k <= cs.len(),
            contacts_in_range(ps0.len(), ss0.len(), vs0.len(), sizes@, as0.len(), cs),
            moves_fit(ps0, ss0, vs0, sizes@, cs),
            ent_anims.landing.wf(),
            ({
                let r = resolve_all(ps0, ss0, vs0, sizes@, cs.take(k as int));
                &&& positions@ == r.0
                &&& states@ == r.1
                &&& vels@ == r.2
                &&& game_over == r.3
            }),
            anims@ == land_cursors(as0, ss0, states@, ent_anims.landing),
        decreases cs.len() - k,
    {
        let contact = contacts[k];
        let ghost before_ps = positions@;
        let ghost before_ss = states@;
        let ghost before_vs = vels@;
        let ghost before_as = anims@;
        proof {
            assert(cs.take(k + 1).drop_last() =~= cs.take(k as int));
            assert(cs.take(k + 1).last() == contact);
            assert(cs[k as int] == contact);
            lemma_resolve_all_lengths(ps0, ss0, vs0, sizes@, cs.take(k as int));
            lemma_moves_fit_prefix(ps0, ss0, vs0, sizes@, cs, k + 1);
        }
        let id = contact.entity_id;
        let wall_rect = contact.wall_rect;
        let min_overlap = if contact.contact.0 <= contact.contact.1 {
            contact.contact.0
        } else {
            contact.contact.1
        };
        let pos = positions[id];
        let size = sizes[id];
        let sprite_rect = Rect { x: pos.0, y: pos.1, w: size.0 as u16, h: size.1 as u16 };
        let still = rect_displacement(&wall_rect, &sprite_rect);
        if still.is_some() && min_overlap != 0 {
            if min_overlap == contact.contact.0 {
                if min_overlap > (size.1 as u16) as i32 / 2 {
                    game_over = true;
                }
                let moved = pos.0 as i64 + signum(pos.0 as i64 - wall_rect.x as i64) * min_overlap as i64;
                positions[id] = Vec2i(moved as i32, pos.1);
            } else {
                if pos.1 as i64 - wall_rect.y as i64 > 0 {
                    game_over = true;
                }
                let moved = pos.1 as i64 + signum(pos.1 as i64 - wall_rect.y as i64) * min_overlap as i64;
                positions[id] = Vec2i(pos.0, moved as i32);
            }
            if states[id] == EntityState::Falling {
                states[id] = EntityState::Landing;
                anims[id] = ent_anims.landing.start();
            }
            let vel = vels[id];
            vels[id] = Vec2i(vel.0, if contact.contact.0 >= 0 { 0 } else { vel.1 });
        }
        proof {
            let r = resolve_one(before_ps, before_ss, before_vs, sizes@, contact);
            assert(positions@ =~= r.0);
            assert(states@ =~= r.1);
            assert(vels@ =~= r.2);
            lemma_resolve_all_lengths(ps0, ss0, vs0, sizes@, cs.take(k + 1));
            assert(anims@ =~= land_cursors(as0, ss0, states@, ent_anims.landing));
        }
        k = k + 1;
    }
    proof {
        assert(cs.take(k as int) =~= cs);
        lemma_fresh(ent_anims.landing);
    }
    game_over
}

/// Every prefix of contacts whose moves fit has moves that fit.
pub proof fn lemma_moves_fit_prefix(
    ps: Seq<Vec2i>,
    ss: Seq<EntityState>,
    vs: Seq<Vec2i>,
    sizes: Seq<(usize, usize)>,
    cs: Seq<WallContact>,
    n: int,
)
    requires
        0 <= n <= cs.len(),
        moves_fit(ps, ss, vs, sizes, cs),
    ensures
        moves_fit(ps, ss, vs, sizes, cs.take(n)),
    decreases cs.len(),
{
    if n == cs.len() {
        assert(cs.take(n) =~= cs);
    } else {
        assert(cs.drop_last().take(n) =~= cs.take(n));
        lemma_moves_fit_prefix(ps, ss, vs, sizes, cs.drop_last(), n);
    }
}

/// Resolution corrects only the axis of the smaller overlap: with the x
/// overlap smaller, the entity moves along x alone, and with the y overlap
/// smaller, along y alone.
pub proof fn lemma_tie_break(
    ps: Seq<Vec2i>,
    ss: Seq<EntityState>,
    vs: Seq<Vec2i>,
    sizes: Seq<(usize, usize)>,
    c: WallContact,
)
    requires
        c.entity_id < ps.len(),
        c.entity_id < sizes.len(),
        applies(ps, sizes, c),
        moves_fit(ps, ss, vs, sizes, seq![c]),
    ensures
        ({
            let p = ps[c.entity_id as int];
            let q = resolve_one(ps, ss, vs, sizes, c).0[c.entity_id as int];
            &&& c.contact.0 < c.contact.1 ==> q.1 == p.1 && q.0 == p.0 + sign(p.0 - c.wall_rect.x)
                * c.contact.0
            &&& c.contact.1 < c.contact.0 ==> q.0 == p.0 && q.1 == p.1 + sign(p.1 - c.wall_rect.y)
                * c.contact.1
        }),
{
    let cs = seq![c];
    assert(cs.drop_last() =~= Seq::<WallContact>::empty());
    assert(cs.last() == c);
}

/// A contact gathered for entity `id`: the wall is a whole tile that the
/// entity meets, and the recorded overlap is their overlap.
pub open spec fn gathered(c: WallContact, e: Rect, id: usize) -> bool {
    &&& c.entity_id == id
    &&& c.wall_rect.w == TILE_SZ
    &&& c.wall_rect.h == TILE_SZ
    &&& rects_meet(e, c.wall_rect)
    &&& c.contact == displacement(e, c.wall_rect)->Some_0
}

/// Every contact of one corner is a gathered contact.
pub proof fn lemma_corner_contacts_gathered(maps: Seq<Tilemap>, p: Vec2i, e: Rect, id: usize)
    ensures
        forall|k: int|
            0 <= k < corner_contacts(maps, p, e, id).len() ==> gathered(
                #[trigger] corner_contacts(maps, p, e, id)[k],
                e,
                id,
            ),
    decreases maps.len(),
{
    if maps.len() > 0 {
        lemma_corner_contacts_gathered(maps.drop_last(), p, e, id);
        let a = corner_contacts(maps.drop_last(), p, e, id);
        let b = map_contacts(maps.last(), p, e, id);
        assert forall|k: int|
            0 <= k < corner_contacts(maps, p, e, id).len() implies gathered(
            #[trigger] corner_contacts(maps, p, e, id)[k],
            e,
            id,
        ) by {
            if k < a.len() {
                assert(corner_contacts(maps, p, e, id)[k] == a[k]);
            } else {
                assert(corner_contacts(maps, p, e, id)[k] == b[k - a.len()]);
            }
        }
    }
}

/// Every contact of a set of corners is a gathered contact.
pub proof fn lemma_contacts_gathered(maps: Seq<Tilemap>, ps: Seq<Vec2i>, e: Rect, id: usize)
    ensures
        forall|k: int|
            0 <= k < contacts_of(maps, ps, e, id).len() ==> gathered(
                #[trigger] contacts_of(maps, ps, e, id)[k],
                e,
                id,
            ),
    decreases ps.len(),
{
    if ps.len() > 0 {
        lemma_contacts_gathered(maps, ps.drop_last(), e, id);
        lemma_corner_contacts_gathered(maps, ps.last(), e, id);
        let a = contacts_of(maps, ps.drop_last(), e, id);
        let b = corner_contacts(maps, ps.last(), e, id);
        assert forall|k: int|
            0 <= k < contacts_of(maps, ps, e, id).len() implies gathered(
            #[trigger] contacts_of(maps, ps, e, id)[k],
            e,
            id,
        ) by {
            if k < a.len() {
                assert(contacts_of(maps, ps, e, id)[k] == a[k]);
            } else {
                assert(contacts_of(maps, ps, e, id)[k] == b[k - a.len()]);
            }
        }
    }
}

/// The entity reaches past the wall's far side, or starts before its near
/// side, along the axis the contact is resolved on.
pub open spec fn reaches_past(e: Rect, c: WallContact) -> bool {
    if resolves_on_x(c) {
        e.x < c.wall_rect.x || e.x + e.w >= c.wall_rect.x + c.wall_rect.w
    } else {
        e.y < c.wall_rect.y || e.y + e.h >= c.wall_rect.y + c.wall_rect.h
    }
}

/// On one axis: an extent `[p, p + len)` shorter than a wall's `[q, q + wlen)`
/// that meets it and reaches past it, pushed away from the wall's origin by
/// their overlap, no longer overlaps it.
pub proof fn lemma_push_clears(p: int, len: int, q: int, wlen: int)
    requires
        0 < len < wlen,
        min(p + len, q + wlen) - max(p, q) >= 0,
        p < q || p + len >= q + wlen,
    ensures
        ({
            let o = min(p + len, q + wlen) - max(p, q);
            let moved = p + sign(p - q) * o;
            min(moved + len, q + wlen) - max(moved, q) <= 0
        }),
{
    if p < q {
        assert(min(p + len, q + wlen) - max(p, q) == p + len - q);
    } else {
        assert(p > q);
        assert(min(p + len, q + wlen) - max(p, q) == q + wlen - p);
    }
}

/// An entity smaller than a tile whose corners give a single contact with a
/// solid tile no longer overlaps that tile once the contact is resolved,
/// provided the entity reaches past the tile along the resolved axis.
pub proof fn lemma_single_contact_clears(
    maps: Seq<Tilemap>,
    ps: Seq<Vec2i>,
    ss: Seq<EntityState>,
    vs: Seq<Vec2i>,
    sizes: Seq<(usize, usize)>,
    id: usize,
    c: WallContact,
)
    requires
        id < ps.len(),
        id < sizes.len(),
        sizes[id as int].0 < TILE_SZ,
        sizes[id as int].1 < TILE_SZ,
        corners_fit(body_rect(ps[id as int], sizes[id as int])),
        contacts_of(
            maps,
            corner_points(body_rect(ps[id as int], sizes[id as int])),
            body_rect(ps[id as int], sizes[id as int]),
            id,
        ) == seq![c],
        reaches_past(body_rect(ps[id as int], sizes[id as int]), c),
        moves_fit(ps, ss, vs, sizes, seq![c]),
    ensures
        !rects_overlap(
            body_rect(resolve_all(ps, ss, vs, sizes, seq![c]).0[id as int], sizes[id as int]),
            c.wall_rect,
        ),
{
    let e = body_rect(ps[id as int], sizes[id as int]);
    lemma_contacts_gathered(maps, corner_points(e), e, id);
    assert(seq![c][0] == c);
    assert(gathered(c, e, id));
    let cs = seq![c];
    assert(cs.drop_last() =~= Seq::<WallContact>::empty());
    assert(cs.last() == c);
    let w = c.wall_rect;
    let ox = overlap_x(e, w);
    let oy = overlap_y(e, w);
    assert(0 <= ox <= e.w && 0 <= oy <= e.h);
    assert(c.contact.0 == ox && c.contact.1 == oy);
    let r = resolve_one(ps, ss, vs, sizes, c);
    assert(resolve_all(ps, ss, vs, sizes, cs).0 == r.0);
    lemma_touch_iff_meet(e, w);
    if applies(ps, sizes, c) {
        let np = pushed(ps[id as int], c);
        assert(r.0[id as int] == Vec2i(np.0 as i32, np.1 as i32));
        let moved = body_rect(r.0[id as int], sizes[id as int]);
        if resolves_on_x(c) {
            assert(moved.x == e.x + sign(e.x - w.x) * ox);
            assert(moved.y == e.y && moved.w == e.w && moved.h == e.h);
            lemma_push_clears(e.x as int, e.w as int, w.x as int, w.w as int);
            assert(overlap_x(moved, w) <= 0);
        } else {
            assert(moved.y == e.y + sign(e.y - w.y) * oy);
            assert(moved.x == e.x && moved.w == e.w && moved.h == e.h);
            lemma_push_clears(e.y as int, e.h as int, w.y as int, w.h as int);
            assert(overlap_y(moved, w) <= 0);
        }
    } else {
        assert(r.0 == ps);
    }
}

} // verus!
