use std::rc::Rc;

use platformer_core::collision::{
    cross_product, gather_contacts, killed, rect_displacement, rect_touching, restitute, signum,
    triangle_collision, WallContact,
};
use platformer_core::state::{EntityAnims, EntityState};
use platformer_core::texture::CpuTexture;
use platformer_core::tiles::{Tile, Tilemap, Tileset};
use platformer_core::types::{Rect, Vec2i};

fn tileset() -> Rc<Tileset> {
    let tex = Rc::new(CpuTexture::from_premultiplied(vec![0; 48 * 16 * 4], 48, 16));
    Rc::new(Tileset::new(
        vec![
            Tile { solid: false, triangle: false },
            Tile { solid: true, triangle: false },
            Tile { solid: false, triangle: true },
        ],
        &tex,
    ))
}

/// A 4x4 map at the origin whose bottom row is solid.
fn floor_map() -> Tilemap {
    Tilemap::new(
        Vec2i(0, 0),
        (4, 4),
        &tileset(),
        vec![0, 0, 0, 0, 0, 0, 0, 0, 0, 0, 0, 0, 1, 1, 1, 1],
    )
}

struct World {
    positions: Vec<Vec2i>,
    states: Vec<EntityState>,
    vels: Vec<Vec2i>,
    sizes: Vec<(usize, usize)>,
    anims: Vec<platformer_core::animation::AnimationState>,
    ent_anims: EntityAnims,
}

fn world(pos: Vec2i, size: (usize, usize), state: EntityState, vel: Vec2i) -> World {
    let ent_anims = EntityAnims::new();
    let anim = ent_anims.falling.start();
    World {
        positions: vec![pos],
        states: vec![state],
        vels: vec![vel],
        sizes: vec![size],
        anims: vec![anim],
        ent_anims,
    }
}

fn resolve(w: &mut World, contacts: &mut Vec<WallContact>) -> bool {
    restitute(
        &mut w.positions,
        &mut w.states,
        &mut w.vels,
        &w.sizes,
        contacts,
        &mut w.anims,
        &w.ent_anims,
    )
}

#[test]
fn displacement_is_overlap_per_axis() {
    let a = Rect { x: 0, y: 0, w: 10, h: 10 };
    let b = Rect { x: 6, y: 8, w: 10, h: 10 };
    assert_eq!(rect_displacement(&a, &b), Some((4, 2)));
    assert_eq!(rect_displacement(&b, &a), Some((4, 2)));
    let edge = Rect { x: 10, y: 0, w: 5, h: 5 };
    assert_eq!(rect_displacement(&a, &edge), Some((0, 5)));
    let apart = Rect { x: 11, y: 0, w: 5, h: 5 };
    assert_eq!(rect_displacement(&a, &apart), None);
    assert!(rect_touching(&a, &edge));
    assert!(!rect_touching(&a, &apart));
}

#[test]
fn killed_against_one_rect_is_the_overlap_test() {
    let r = Rect { x: 0, y: 0, w: 11, h: 16 };
    let others = [
        Rect { x: 5, y: 5, w: 4, h: 4 },
        Rect { x: 11, y: 16, w: 4, h: 4 },
        Rect { x: 12, y: 0, w: 4, h: 4 },
        Rect { x: -10, y: -10, w: 5, h: 5 },
    ];
    for o in others.iter() {
        assert_eq!(killed(&r, &[*o]), rect_displacement(&r, o).is_some());
        assert_eq!(killed(&r, &[*o]), killed(o, &[r]));
    }
    assert!(killed(&r, &others));
    assert!(!killed(&r, &others[2..]));
    assert!(!killed(&r, &[]));
}

#[test]
fn grazing_contact_is_skipped() {
    let entity = Rect { x: 0, y: 0, w: 11, h: 16 };
    let wall = Rect { x: 16, y: 0, w: 16, h: 16 };
    let touching = Rect { x: 5, y: 0, w: 11, h: 16 };
    assert_eq!(rect_displacement(&touching, &wall), Some((0, 16)));
    assert_eq!(rect_displacement(&entity, &wall), None);
    let mut w = world(Vec2i(5, 0), (11, 16), EntityState::Falling, Vec2i(2, 3));
    let mut contacts = vec![WallContact { wall_rect: wall, entity_id: 0, contact: (0, 16) }];
    assert!(!resolve(&mut w, &mut contacts));
    assert_eq!(w.positions[0], Vec2i(5, 0));
    assert_eq!(w.states[0], EntityState::Falling);
    assert_eq!(w.vels[0], Vec2i(2, 3));
    assert_eq!(contacts.len(), 1);
}

#[test]
fn smaller_x_overlap_corrects_x_only() {
    let wall = Rect { x: 16, y: 16, w: 16, h: 16 };
    let mut w = world(Vec2i(5, 20), (14, 10), EntityState::Running, Vec2i(1, 2));
    let body = Rect { x: 5, y: 20, w: 14, h: 10 };
    let overlap = rect_displacement(&body, &wall).unwrap();
    assert_eq!(overlap, (3, 10));
    let mut contacts = vec![WallContact { wall_rect: wall, entity_id: 0, contact: overlap }];
    assert!(!resolve(&mut w, &mut contacts));
    assert_eq!(w.positions[0], Vec2i(2, 20));
    assert_eq!(w.vels[0], Vec2i(1, 0));
    assert_eq!(w.states[0], EntityState::Running);
}

#[test]
fn smaller_y_overlap_corrects_y_only() {
    let wall = Rect { x: 16, y: 16, w: 16, h: 16 };
    let mut w = world(Vec2i(20, 5), (10, 14), EntityState::Running, Vec2i(1, 2));
    let body = Rect { x: 20, y: 5, w: 10, h: 14 };
    let overlap = rect_displacement(&body, &wall).unwrap();
    assert_eq!(overlap, (10, 3));
    let mut contacts = vec![WallContact { wall_rect: wall, entity_id: 0, contact: overlap }];
    assert!(!resolve(&mut w, &mut contacts));
    assert_eq!(w.positions[0], Vec2i(20, 2));
}

#[test]
fn deep_side_overlap_is_fatal() {
    let wall = Rect { x: 16, y: 0, w: 16, h: 16 };
    let mut w = world(Vec2i(26, 0), (10, 6), EntityState::Running, Vec2i(0, 0));
    let mut contacts = vec![WallContact { wall_rect: wall, entity_id: 0, contact: (4, 6) }];
    assert!(resolve(&mut w, &mut contacts));
    assert_eq!(w.positions[0], Vec2i(30, 0));
}

#[test]
fn pushed_up_from_below_the_top_is_fatal() {
    let wall = Rect { x: 0, y: 0, w: 16, h: 16 };
    let mut w = world(Vec2i(2, 12), (10, 10), EntityState::Jumping, Vec2i(0, -3));
    let mut contacts = vec![WallContact { wall_rect: wall, entity_id: 0, contact: (10, 4) }];
    assert!(resolve(&mut w, &mut contacts));
    assert_eq!(w.positions[0], Vec2i(2, 16));
    assert_eq!(w.vels[0], Vec2i(0, 0));
}

#[test]
fn falling_onto_floor_lands() {
    let maps = vec![floor_map()];
    let mut w = world(Vec2i(20, 40), (10, 10), EntityState::Falling, Vec2i(1, 3));
    w.anims[0].tick();
    let body = Rect { x: 20, y: 40, w: 10, h: 10 };
    let mut contacts = Vec::new();
    assert!(!gather_contacts(&maps, &body, 0, &mut contacts));
    assert_eq!(contacts.len(), 2);
    assert_eq!(contacts[0].wall_rect, Rect { x: 16, y: 48, w: 16, h: 16 });
    assert_eq!(contacts[0].contact, (10, 2));
    assert!(!resolve(&mut w, &mut contacts));
    assert_eq!(w.states[0], EntityState::Landing);
    assert_eq!(w.anims[0].elapsed(), 0);
    assert_eq!(w.anims[0].frame(), w.ent_anims.landing.start().frame());
    assert_eq!(w.anims[0].frame(), Rect { x: 125, y: 64, w: 25, h: 16 });
    assert_eq!(w.vels[0], Vec2i(1, 0));
    assert!(w.positions[0].1 < 40);
}

#[test]
fn single_contact_leaves_no_overlap() {
    let maps = vec![floor_map()];
    // both bottom corners sample the same floor tile; resolve one contact alone
    let mut w = world(Vec2i(10, 44), (5, 8), EntityState::Falling, Vec2i(0, 2));
    let body = Rect { x: 10, y: 44, w: 5, h: 8 };
    let mut contacts = Vec::new();
    assert!(!gather_contacts(&maps, &body, 0, &mut contacts));
    assert_eq!(contacts.len(), 2);
    let mut one = vec![contacts[0]];
    resolve(&mut w, &mut one);
    let p = w.positions[0];
    let moved = Rect { x: p.0, y: p.1, w: 5, h: 8 };
    let (dx, dy) = rect_displacement(&moved, &one[0].wall_rect).unwrap_or((0, 0));
    assert!(dx == 0 || dy == 0);
}

#[test]
fn corner_inside_spike_is_fatal() {
    let tile = Rect { x: 0, y: 0, w: 16, h: 16 };
    assert!(triangle_collision(Vec2i(8, 10), tile));
    assert!(!triangle_collision(Vec2i(1, 1), tile));
    assert!(!triangle_collision(Vec2i(15, 2), tile));

    let spikes = Tilemap::new(Vec2i(0, 0), (1, 1), &tileset(), vec![2]);
    let maps = vec![spikes];
    let mut contacts = Vec::new();
    assert!(gather_contacts(&maps, &Rect { x: 8, y: 10, w: 4, h: 4 }, 0, &mut contacts));
    assert!(contacts.is_empty());
    assert!(!gather_contacts(&maps, &Rect { x: 1, y: 1, w: 1, h: 1 }, 0, &mut contacts));
    assert!(contacts.is_empty());
}

#[test]
fn cross_product_and_sign() {
    assert_eq!(cross_product(Vec2i(-8, 16), Vec2i(0, 10)), -80);
    assert_eq!(cross_product(Vec2i(2, 3), Vec2i(4, 5)), -2);
    assert_eq!(signum(-7), -1);
    assert_eq!(signum(0), 0);
    assert_eq!(signum(9), 1);
}

#[test]
fn contact_within_the_tiles_span_can_remain() {
    // solid tile above an empty one; the entity's left edge lies on the
    // map's edge, so only its top-right corner samples the solid tile
    let maps = vec![Tilemap::new(Vec2i(0, 0), (1, 2), &tileset(), vec![1, 0])];
    let body = Rect { x: 0, y: 10, w: 4, h: 8 };
    let mut contacts = Vec::new();
    assert!(!gather_contacts(&maps, &body, 0, &mut contacts));
    assert_eq!(contacts.len(), 1);
    assert_eq!(contacts[0].contact, (4, 6));
    let mut w = world(Vec2i(0, 10), (4, 8), EntityState::Running, Vec2i(0, 0));
    assert!(!resolve(&mut w, &mut contacts));
    // resolved along x, but the entity starts at the wall's own x: no push
    assert_eq!(w.positions[0], Vec2i(0, 10));
}
