use std::rc::Rc;

use platformer_core::animation::AnimationState;
use platformer_core::behavior::{is_airborne, steer, update_velocity, SoundCue, JUMP_SPEED};
use platformer_core::state::{EntityAnims, EntityState, EntityType, Inputs};
use platformer_core::texture::CpuTexture;
use platformer_core::tiles::{Tile, Tilemap, Tileset};
use platformer_core::types::{Rect, Vec2i};

const MAX_SPEED: i32 = 4;

/// A 4x4 map at the origin whose bottom row is solid.
fn level() -> Vec<Tilemap> {
    let tex = Rc::new(CpuTexture::from_premultiplied(vec![0; 32 * 16 * 4], 32, 16));
    let ts = Rc::new(Tileset::new(
        vec![Tile { solid: false, triangle: false }, Tile { solid: true, triangle: false }],
        &tex,
    ));
    vec![Tilemap::new(
        Vec2i(0, 0),
        (4, 4),
        &ts,
        vec![0, 0, 0, 0, 0, 0, 0, 0, 0, 0, 0, 0, 1, 1, 1, 1],
    )]
}

/// Resting on the floor: bottom edge one unit above it.
const ON_GROUND: Rect = Rect { x: 20, y: 31, w: 10, h: 16 };
/// High above the floor.
const IN_AIR: Rect = Rect { x: 20, y: 5, w: 10, h: 10 };

struct Entity {
    state: EntityState,
    vel: Vec2i,
    anim: AnimationState,
}

fn step(e: &mut Entity, rect: Rect, inputs: &Inputs, anims: &EntityAnims) -> Option<SoundCue> {
    update_velocity(
        &mut e.state,
        rect,
        &mut e.vel,
        &level(),
        &mut e.anim,
        inputs,
        anims,
        MAX_SPEED,
    )
}

fn jump() -> Inputs {
    let mut i = Inputs::new();
    i.space = true;
    i
}

#[test]
fn inputs_start_released() {
    let i = Inputs::new();
    assert!(!i.up && !i.down && !i.left && !i.right && !i.space && !i.esc);
    assert_ne!(EntityType::Player, EntityType::Enemy);
}

#[test]
fn airborne_needs_both_feet_off_ground() {
    let l = level();
    assert!(!is_airborne(ON_GROUND, &l));
    assert!(is_airborne(IN_AIR, &l));
    // one foot over the map's edge, the other on the floor
    assert!(!is_airborne(Rect { x: 55, y: 31, w: 10, h: 16 }, &l));
}

#[test]
fn standing_with_speed_starts_running() {
    let anims = EntityAnims::new();
    let mut e = Entity { state: EntityState::Standing, vel: Vec2i(1, 0), anim: anims.standing.start() };
    e.anim.tick();
    let cue = step(&mut e, ON_GROUND, &Inputs::new(), &anims);
    assert_eq!(cue, None);
    assert_eq!(e.state, EntityState::StartRun);
    assert_eq!(e.anim.elapsed(), 0);
    assert_eq!(e.anim.frame(), Rect { x: 25, y: 0, w: 25, h: 16 });
    assert_eq!(e.vel, Vec2i(1, 0));
}

#[test]
fn jump_from_ground_launches() {
    let anims = EntityAnims::new();
    let mut e = Entity { state: EntityState::Standing, vel: Vec2i(0, 0), anim: anims.standing.start() };
    let cue = step(&mut e, ON_GROUND, &jump(), &anims);
    assert_eq!(e.state, EntityState::Jumping);
    assert_eq!(e.vel, Vec2i(0, JUMP_SPEED));
    assert_eq!(JUMP_SPEED, -5);
    assert_eq!(e.anim.frame(), anims.jumping.start().frame());
    assert_eq!(cue, None);
}

#[test]
fn jump_while_airborne_asks_for_sound() {
    let anims = EntityAnims::new();
    let mut e = Entity { state: EntityState::Falling, vel: Vec2i(0, 0), anim: anims.falling.start() };
    let cue = step(&mut e, IN_AIR, &jump(), &anims);
    assert_eq!(e.state, EntityState::Jumping);
    assert_eq!(cue, Some(SoundCue::Jump));
}

#[test]
fn rising_jump_decelerates() {
    let anims = EntityAnims::new();
    let mut e = Entity { state: EntityState::Jumping, vel: Vec2i(0, -5), anim: anims.jumping.start() };
    step(&mut e, IN_AIR, &Inputs::new(), &anims);
    assert_eq!(e.vel, Vec2i(0, -4));
    assert_eq!(e.state, EntityState::Jumping);
}

#[test]
fn descending_jump_turns_into_fall() {
    let anims = EntityAnims::new();
    let mut e = Entity { state: EntityState::Jumping, vel: Vec2i(0, 2), anim: anims.jumping.start() };
    step(&mut e, IN_AIR, &Inputs::new(), &anims);
    assert_eq!(e.vel, Vec2i(0, 1));
    assert_eq!(e.state, EntityState::Falling);
    assert_eq!(e.anim.frame(), anims.falling.start().frame());
}

#[test]
fn finished_landing_picks_run_or_stand() {
    let anims = EntityAnims::new();
    let mut landing = anims.landing.start();
    for _ in 0..anims.landing.duration() {
        landing.tick();
    }
    assert!(landing.done());

    let mut moving = Entity { state: EntityState::Landing, vel: Vec2i(2, 0), anim: landing.clone() };
    let cue = step(&mut moving, ON_GROUND, &Inputs::new(), &anims);
    assert_eq!(moving.state, EntityState::Running);
    assert_eq!(cue, Some(SoundCue::Land));

    let mut still = Entity { state: EntityState::Landing, vel: Vec2i(0, 0), anim: landing };
    let cue = step(&mut still, ON_GROUND, &Inputs::new(), &anims);
    assert_eq!(still.state, EntityState::Standing);
    assert_eq!(cue, None);
}

#[test]
fn unfinished_landing_waits() {
    let anims = EntityAnims::new();
    let mut e = Entity { state: EntityState::Landing, vel: Vec2i(2, 0), anim: anims.landing.start() };
    step(&mut e, ON_GROUND, &Inputs::new(), &anims);
    assert_eq!(e.state, EntityState::Landing);
}

#[test]
fn running_stops_when_speed_is_zero() {
    let anims = EntityAnims::new();
    let mut e = Entity { state: EntityState::Running, vel: Vec2i(0, 0), anim: anims.running.start() };
    step(&mut e, ON_GROUND, &Inputs::new(), &anims);
    assert_eq!(e.state, EntityState::Standing);
    let mut s = Entity { state: EntityState::StartRun, vel: Vec2i(0, 0), anim: anims.start_run.start() };
    step(&mut s, ON_GROUND, &Inputs::new(), &anims);
    assert_eq!(s.state, EntityState::Standing);
}

#[test]
fn gravity_applies_only_in_the_air() {
    let anims = EntityAnims::new();
    let mut e = Entity { state: EntityState::Falling, vel: Vec2i(0, 3), anim: anims.falling.start() };
    step(&mut e, IN_AIR, &Inputs::new(), &anims);
    assert_eq!(e.vel, Vec2i(0, 4));
    step(&mut e, IN_AIR, &Inputs::new(), &anims);
    assert_eq!(e.vel, Vec2i(0, 4));
    let mut g = Entity { state: EntityState::Standing, vel: Vec2i(0, 0), anim: anims.standing.start() };
    step(&mut g, ON_GROUND, &Inputs::new(), &anims);
    assert_eq!(g.vel, Vec2i(0, 0));
    assert_eq!(g.state, EntityState::Standing);
}

#[test]
fn steering_ramps_and_decays() {
    let mut v = Vec2i(0, 7);
    let mut right = Inputs::new();
    right.right = true;
    for _ in 0..6 {
        steer(&mut v, &right, 3);
    }
    assert_eq!(v, Vec2i(3, 7));
    let mut both = right;
    both.left = true;
    steer(&mut v, &both, 3);
    assert_eq!(v, Vec2i(2, 7));
    steer(&mut v, &Inputs::new(), 3);
    steer(&mut v, &Inputs::new(), 3);
    steer(&mut v, &Inputs::new(), 3);
    assert_eq!(v, Vec2i(0, 7));
    let mut left = Inputs::new();
    left.left = true;
    for _ in 0..5 {
        steer(&mut v, &left, 3);
    }
    assert_eq!(v, Vec2i(-3, 7));
}

#[test]
fn entity_animations_follow_the_sheet() {
    let anims = EntityAnims::new();
    assert_eq!(anims.standing.duration(), 3);
    assert_eq!(anims.start_run.duration(), 39);
    assert_eq!(anims.landing.duration(), 30);
    let s = anims.running.start();
    assert_eq!(s.frame(), Rect { x: 150, y: 16, w: 25, h: 16 });
}
