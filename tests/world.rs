use std::rc::Rc;

use platformer_core::animation::Animation;
use platformer_core::texture::CpuTexture;
use platformer_core::tiles::{Tile, Tilemap, Tileset};
use platformer_core::types::{Rect, Vec2i};
use platformer_core::state::{EntityAnims, EntityState, Inputs};
use platformer_core::world::{gather_all, integrate, step_frame, tick_all};

fn maps() -> Vec<Tilemap> {
    let tex = Rc::new(CpuTexture::from_premultiplied(vec![0; 48 * 16 * 4], 48, 16));
    let ts = Rc::new(Tileset::new(
        vec![
            Tile { solid: false, triangle: false },
            Tile { solid: true, triangle: false },
            Tile { solid: false, triangle: true },
        ],
        &tex,
    ));
    // row 0: empty, spike; row 1: solid, solid
    vec![Tilemap::new(Vec2i(0, 0), (2, 2), &ts, vec![0, 2, 1, 1])]
}

#[test]
fn tick_all_advances_every_cursor() {
    let a = Rc::new(Animation::new(vec![(Rect { x: 0, y: 0, w: 1, h: 1 }, 2)], true));
    let b = Rc::new(Animation::new(vec![(Rect { x: 1, y: 0, w: 1, h: 1 }, 1)], false));
    let mut anims = vec![a.start(), b.start()];
    tick_all(&mut anims);
    assert_eq!(anims[0].elapsed(), 1);
    assert_eq!(anims[1].elapsed(), 1);
    tick_all(&mut anims);
    assert_eq!(anims[0].elapsed(), 0);
    assert_eq!(anims[1].elapsed(), 1);
}

#[test]
fn integrate_adds_velocity() {
    let mut ps = vec![Vec2i(1, 2), Vec2i(-5, 7)];
    integrate(&mut ps, &vec![Vec2i(3, -4), Vec2i(0, 1)]);
    assert_eq!(ps, vec![Vec2i(4, -2), Vec2i(-5, 8)]);
}

#[test]
fn gather_all_collects_in_entity_order() {
    let m = maps();
    // entity 0 rests low on the solid row; entity 1 floats in the empty tile
    let positions = vec![Vec2i(2, 12), Vec2i(2, 2)];
    let sizes = vec![(4, 6), (4, 4)];
    let mut contacts = Vec::new();
    assert!(!gather_all(&m, &positions, &sizes, &mut contacts));
    assert_eq!(contacts.len(), 2);
    assert!(contacts.iter().all(|c| c.entity_id == 0));
    assert_eq!(contacts[0].wall_rect, Rect { x: 0, y: 16, w: 16, h: 16 });
    assert_eq!(contacts[0].contact, (4, 2));

    // an entity whose corner sits in the spike's middle ends the run
    let positions = vec![Vec2i(2, 2), Vec2i(24, 10)];
    let mut contacts = Vec::new();
    assert!(gather_all(&m, &positions, &sizes, &mut contacts));
}

fn floor() -> Vec<Tilemap> {
    let tex = Rc::new(CpuTexture::from_premultiplied(vec![0; 32 * 16 * 4], 32, 16));
    let ts = Rc::new(Tileset::new(
        vec![Tile { solid: false, triangle: false }, Tile { solid: true, triangle: false }],
        &tex,
    ));
    vec![Tilemap::new(
        Vec2i(0, 0),
        (4, 4),
        &ts,
        vec![0, 0, 0, 0, 0, 0, 0, 0, 0, 0, 0, 0, 1, 1, 1, 1],
    )]
}

#[test]
fn step_frame_lands_a_falling_entity() {
    let anims = EntityAnims::new();
    let mut positions = vec![Vec2i(20, 36)];
    let mut states = vec![EntityState::Falling];
    let mut vels = vec![Vec2i(0, 3)];
    let sizes = vec![(10, 10)];
    let mut cursors = vec![anims.falling.start()];
    let inputs = vec![Inputs::new()];
    let (fatal, cues) = step_frame(
        &mut positions,
        &mut states,
        &mut vels,
        &sizes,
        &mut cursors,
        &inputs,
        &floor(),
        &anims,
        4,
    );
    // gravity takes the velocity to 4, the entity sinks to y = 40 and is
    // pushed back out of the floor twice (once per bottom corner)
    assert!(!fatal);
    assert_eq!(cues, vec![None]);
    assert_eq!(states[0], EntityState::Landing);
    assert_eq!(vels[0], Vec2i(0, 0));
    assert_eq!(positions[0], Vec2i(20, 36));
    assert_eq!(cursors[0].elapsed(), 0);
}

#[test]
fn step_frame_is_fatal_when_entities_meet() {
    let anims = EntityAnims::new();
    let mut positions = vec![Vec2i(10, 10), Vec2i(18, 10)];
    let mut states = vec![EntityState::Standing, EntityState::Standing];
    let mut vels = vec![Vec2i(0, -1), Vec2i(0, -1)];
    let sizes = vec![(6, 6), (6, 6)];
    let mut cursors = vec![anims.standing.start(), anims.standing.start()];
    let inputs = vec![Inputs::new(), Inputs::new()];
    let (fatal, _) = step_frame(
        &mut positions,
        &mut states,
        &mut vels,
        &sizes,
        &mut cursors,
        &inputs,
        &floor(),
        &anims,
        4,
    );
    // both are airborne: gravity brings them to rest, two units apart
    assert_eq!(vels, vec![Vec2i(0, 0), Vec2i(0, 0)]);
    assert!(!fatal);
    let mut positions = vec![Vec2i(10, 10), Vec2i(15, 10)];
    let (fatal, _) = step_frame(
        &mut positions,
        &mut states,
        &mut vels,
        &sizes,
        &mut cursors,
        &inputs,
        &floor(),
        &anims,
        4,
    );
    assert!(fatal);
}
