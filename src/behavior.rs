use vstd::prelude::*;

use crate::animation::{lemma_fresh, AnimationState};
use crate::collision::{max, min, sign, signum};
use crate::state::{EntityAnims, EntityState, Inputs};
use crate::tiles::Tilemap;
use crate::types::{Rect, Vec2i};

verus! {

/// Vertical velocity given by a jump (negative is upwards).
pub const JUMP_SPEED: i32 = -5;

/// A sound that an entity's behaviour asks to be played.
#[derive(Clone, Copy, PartialEq, Eq, Structural, Debug)]
pub enum SoundCue {
    Jump,
    Land,
}

/// No map has a solid tile at `p`.
pub open spec fn point_airborne(maps: Seq<Tilemap>, p: Vec2i) -> bool {
    !exists|j: int|
        0 <= j < maps.len() && (#[trigger] maps[j]).contains_point(p) && maps[j].tile_under(p).solid
}

/// The two points one unit below the bottom corners of `e`.
pub open spec fn ground_samples(e: Rect) -> (Vec2i, Vec2i) {
    (Vec2i(e.x, (e.y + e.h + 1) as i32), Vec2i((e.x + e.w) as i32, (e.y + e.h + 1) as i32))
}

/// The ground samples of `e` are points of `i32`.
pub open spec fn samples_fit(e: Rect) -> bool {
    e.x + e.w <= i32::MAX && e.y + e.h + 1 <= i32::MAX
}

/// Neither bottom corner of `e` has ground one unit below it.
pub open spec fn airborne(maps: Seq<Tilemap>, e: Rect) -> bool {
    point_airborne(maps, ground_samples(e).0) && point_airborne(maps, ground_samples(e).1)
}


/// Which row of the behaviour table applies: the first whose guard holds,
/// in the table's order.
pub open spec fn rule(state: EntityState, vel: Vec2i, done: bool, jump: bool) -> int {
    if state == EntityState::Jumping && vel.1 < 0 {
        0
    } else if state == EntityState::Jumping && vel.1 > 0 {
        1
    } else if state == EntityState::Landing && done {
        2
    } else if state == EntityState::StartRun && done && vel.0 != 0 {
        3
    } else if state == EntityState::Standing && !jump && vel.0 != 0 {
        4
    } else if state == EntityState::Running && vel.0 == 0 {
        5
    } else if state == EntityState::StartRun && vel.0 == 0 {
        6
    } else if jump && vel.1 == 0 {
        7
    } else {
        8
    }
}

/// One unit of gravity on vertical velocity `v`, capped at `cap`.
pub open spec fn fall(v: int, cap: int) -> int {
    min(v + 1, cap)
}

/// The behaviour table applied to one entity: its new behaviour, velocity
/// and animation cursor, and the sound the step asks for. `air` says whether
/// the entity is airborne; `cap` bounds vertical speed either way.
pub open spec fn behave(
    s: EntityState,
    v: Vec2i,
    a: AnimationState,
    inputs: Inputs,
    air: bool,
    anims: EntityAnims,
    cap: i32,
) -> (EntityState, Vec2i, AnimationState, Option<SoundCue>) {
    let r = rule(s, v, a.is_done(), inputs.space);
    if r == 0 {
        (s, Vec2i(v.0, fall(v.1 as int, cap as int) as i32), a, None)
    } else if r == 1 {
        (
            EntityState::Falling,
            Vec2i(v.0, max(v.1 - 1, -cap) as i32),
            AnimationState::fresh(anims.falling),
            None,
        )
    } else if r == 2 {
        if v.0 != 0 {
            (EntityState::Running, v, AnimationState::fresh(anims.running), Some(SoundCue::Land))
        } else {
            (EntityState::Standing, v, AnimationState::fresh(anims.standing), None)
        }
    } else if r == 3 {
        (EntityState::Running, v, AnimationState::fresh(anims.running), None)
    } else if r == 4 {
        (EntityState::StartRun, v, AnimationState::fresh(anims.start_run), None)
    } else if r == 5 || r == 6 {
        (EntityState::Standing, v, AnimationState::fresh(anims.standing), None)
    } else if r == 7 {
        (
            EntityState::Jumping,
            Vec2i(v.0, JUMP_SPEED),
            AnimationState::fresh(anims.jumping),
            if air {
                Some(SoundCue::Jump)
            } else {
                None
            },
        )
    } else if air {
        (s, Vec2i(v.0, fall(v.1 as int, cap as int) as i32), a, None)
    } else {
        (s, v, a, None)
    }
}

/// The behaviour table leaves a cursor that can be ticked: either the one it
/// was given or a fresh one on a playable animation.
pub proof fn lemma_behave_tickable(
    s: EntityState,
    v: Vec2i,
    a: AnimationState,
    inputs: Inputs,
    air: bool,
    anims: EntityAnims,
    cap: i32,
)
    requires
        a.wf(),
        a.animation().looping() ==> a.animation().total_duration() > 0,
        anims.wf(),
    ensures
        ({
            let b = behave(s, v, a, inputs, air, anims, cap).2;
            b.wf() && (b.animation().looping() ==> b.animation().total_duration() > 0)
        }),
{
    lemma_fresh(anims.standing);
    lemma_fresh(anims.start_run);
    lemma_fresh(anims.running);
    lemma_fresh(anims.jumping);
    lemma_fresh(anims.falling);
}

/// Horizontal velocity after steering `vx` with `inputs`, capped at `cap`
/// either way.
pub open spec fn steered(vx: int, inputs: Inputs, cap: int) -> int {
    if (inputs.left && inputs.right) || !(inputs.left || inputs.right) {
        vx - sign(vx)
    } else if inputs.left {
        max(vx - 1, -cap)
    } else {
        min(vx + 1, cap)
    }
}

/// Whether no map has a solid tile at `p`.
pub fn point_is_airborne(p: Vec2i, level: &Vec<Tilemap>) -> (r: bool)
    requires
        forall|j: int| 0 <= j < level@.len() ==> (#[trigger] level@[j]).wf(),
    ensures
        r == point_airborne(level@, p),
{
    let mut j: usize = 0;
    while j < level.len()
        invariant
            j <= level@.len(),
            forall|jj: int| 0 <= jj < level@.len() ==> (#[trigger] level@[jj]).wf(),
            forall|jj: int|
                0 <= jj < j ==> !((#[trigger] level@[jj]).contains_point(p) && level@[jj].tile_under(
                    p,
                ).solid),
        decreases level@.len() - j,
    {
        let map = &level[j];
        if map.contains(p) && map.tile_at(p).solid {
            return false;
        }
        j = j + 1;
    }
    true
}

/// Whether neither bottom corner of `entity` has ground one unit below it.
pub fn is_airborne(entity: Rect, level: &Vec<Tilemap>) -> (r: bool)
    requires
        forall|j: int| 0 <= j < level@.len() ==> (#[trigger] level@[j]).wf(),
        samples_fit(entity),
    ensures
        r == airborne(level@, entity),
{
    let below = entity.y + entity.h as i32 + 1;
    point_is_airborne(Vec2i(entity.x, below), level) && point_is_airborne(
        Vec2i(entity.x + entity.w as i32, below),
        level,
    )
}

/// Ramps horizontal velocity by one unit towards the held direction, capped
/// at `max_speed` either way; with neither or both directions held, it moves
/// one unit towards zero.
pub fn steer(vel: &mut Vec2i, inputs: &Inputs, max_speed: i32)
    requires
        max_speed >= 0,
    ensures
        final(vel).1 == old(vel).1,
        final(vel).0 == steered(old(vel).0 as int, *inputs, max_speed as int),
{
    if (inputs.left && inputs.right) || !(inputs.left || inputs.right) {
        vel.0 = (vel.0 as i64 - signum(vel.0 as i64)) as i32;
    } else if inputs.left {
        vel.0 = if vel.0 > -max_speed {
            vel.0 - 1
        } else {
            -max_speed
        };
    } else {
        vel.0 = if vel.0 < max_speed {
            vel.0 + 1
        } else {
            max_speed
        };
    }
}

/// One step of the behaviour table for one entity: updates its vertical
/// velocity, its behaviour and its animation, and returns the sound the step
/// asks for. `max_speed` caps vertical speed either way.
pub fn update_velocity(
    state: &mut EntityState,
    entity: Rect,
    vel: &mut Vec2i,
    level: &Vec<Tilemap>,
    anim: &mut AnimationState,
    inputs: &Inputs,
    ent_anims: &EntityAnims,
    max_speed: i32,
) -> (cue: Option<SoundCue>)
    requires
        forall|j: int| 0 <= j < level@.len() ==> (#[trigger] level@[j]).wf(),
        samples_fit(entity),
        old(anim).wf(),
        ent_anims.wf(),
        max_speed >= 0,
    ensures
        final(anim).wf(),
        (*final(state), *final(vel), *final(anim), cue) == behave(
            *old(state),
            *old(vel),
            *old(anim),
            *inputs,
            airborne(level@, entity),
            *ent_anims,
            max_speed,
        ),
{
    let done = anim.done();
    match *state {
        EntityState::Jumping if vel.1 < 0 => {
            vel.1 = if vel.1 < max_speed {
                vel.1 + 1
            } else {
                max_speed
            };
            None
        },
        EntityState::Jumping if vel.1 > 0 => {
            vel.1 = if vel.1 > -max_speed {
                vel.1 - 1
            } else {
                -max_speed
            };
            *state = EntityState::Falling;
            *anim = ent_anims.falling.start();
            None
        },
        EntityState::Landing if done => {
            if vel.0 != 0 {
                *state = EntityState::Running;
                *anim = ent_anims.running.start();
                Some(SoundCue::Land)
            } else {
                *state = EntityState::Standing;
                *anim = ent_anims.standing.start();
                None
            }
        },
        EntityState::StartRun if done && vel.0 != 0 => {
            *state = EntityState::Running;
            *anim = ent_anims.running.start();
            None
        },
        EntityState::Standing if !inputs.space && vel.0 != 0 => {
            *state = EntityState::StartRun;
            *anim = ent_anims.start_run.start();
            None
        },
        EntityState::Running if vel.0 == 0 => {
            *state = EntityState::Standing;
            *anim = ent_anims.standing.start();
            None
        },
        EntityState::StartRun if vel.0 == 0 => {
            *state = EntityState::Standing;
            *anim = ent_anims.standing.start();
            None
        },
        _ if inputs.space && vel.1 == 0 => {
            vel.1 = JUMP_SPEED;
            *state = EntityState::Jumping;
            *anim = ent_anims.jumping.start();
            if is_airborne(entity, level) {
                Some(SoundCue::Jump)
            } else {
                None
            }
        },
        _ => {
            if is_airborne(entity, level) {
                vel.1 = if vel.1 < max_speed {
                    vel.1 + 1
                } else {
                    max_speed
                };
            }
            None
        },
    }
}

} // verus!
