use std::rc::Rc;

use vstd::prelude::*;

use crate::animation::{total, Animation};
use crate::types::Rect;

verus! {

/// What an entity is.
#[derive(Clone, Copy, PartialEq, Eq, Structural, Debug)]
pub enum EntityType {
    Player,
    Enemy,
}

/// The intent given to an entity for one frame.
#[derive(Clone, Copy, PartialEq, Eq, Structural, Debug)]
pub struct Inputs {
    pub up: bool,
    pub down: bool,
    pub left: bool,
    pub right: bool,
    pub space: bool,
    pub esc: bool,
}

impl Inputs {
    /// No key held.
    pub fn new() -> (i: Inputs)
        ensures
            !i.up && !i.down && !i.left && !i.right && !i.space && !i.esc,
    {
        Inputs { up: false, down: false, left: false, right: false, space: false, esc: false }
    }
}

/// Sprite-sheet frame numbers of each behaviour's animation.
pub const STAND_FRAME: u16 = 0;

pub const RUN_START: u16 = 1;

pub const MID_RUN: u16 = 14;

pub const RUN_END: u16 = 22;

pub const JUMP_START: u16 = 24;

pub const JUMP_END: u16 = 29;

pub const FALL_START: u16 = 30;

pub const FALL_END: u16 = 36;

pub const LAND_START: u16 = 37;

pub const LAND_END: u16 = 47;

/// Ticks each generated frame is shown for.
pub const FRAME_LEN: usize = 3;

/// Width of a frame on the sprite sheet.
pub const FRAME_W: u16 = 25;

/// Height of a frame on the sprite sheet.
pub const FRAME_H: u16 = 16;

/// Width of the sprite sheet.
pub const SHEET_W: u16 = 200;

/// Frames per row of the sprite sheet.
pub const SHEET_COLS: u16 = 8;

/// What an entity is doing; each has its own animation.
#[derive(Clone, Copy, PartialEq, Eq, Structural, Debug)]
pub enum EntityState {
    Standing,
    StartRun,
    Running,
    Jumping,
    Falling,
    Landing,
}

/// The animation of each behaviour, shared by all entities of a kind.
#[derive(Clone)]
pub struct EntityAnims {
    pub standing: Rc<Animation>,
    pub start_run: Rc<Animation>,
    pub running: Rc<Animation>,
    pub jumping: Rc<Animation>,
    pub falling: Rc<Animation>,
    pub landing: Rc<Animation>,
}

/// Sprite-sheet rectangle of frame number `frame`.
pub open spec fn sheet_rect(frame: int) -> Rect {
    Rect {
        x: ((frame * FRAME_W) % (SHEET_W as int)) as i32,
        y: ((frame / (SHEET_COLS as int)) * FRAME_H) as i32,
        w: FRAME_W,
        h: FRAME_H,
    }
}

/// Frames `start..end` of the sprite sheet, each shown for `len` ticks.
pub open spec fn sheet_frames(start: int, end: int, len: usize) -> Seq<(Rect, usize)> {
    Seq::new((end - start) as nat, |i: int| (sheet_rect(start + i), len))
}

/// The animation plays frames `start..end` for `len` ticks each.
pub open spec fn plays(a: Animation, start: u16, end: u16, len: usize, looping: bool) -> bool {
    &&& a.frames() == sheet_frames(start as int, end as int, len)
    &&& a.looping() == looping
    &&& a.wf()
}

/// The animation's durations fit in a `usize`, and one that loops lasts at
/// least one tick, so a cursor on it can always be ticked.
pub open spec fn playable(a: Animation) -> bool {
    a.wf() && (a.looping() ==> a.total_duration() > 0)
}

impl EntityAnims {
    /// Every animation is playable.
    pub open spec fn wf(&self) -> bool {
        &&& playable(*self.standing)
        &&& playable(*self.start_run)
        &&& playable(*self.running)
        &&& playable(*self.jumping)
        &&& playable(*self.falling)
        &&& playable(*self.landing)
    }

    pub fn new() -> (e: EntityAnims)
        ensures
            e.wf(),
            plays(*e.standing, STAND_FRAME, RUN_START, FRAME_LEN, true),
            plays(*e.start_run, RUN_START, MID_RUN, FRAME_LEN, false),
            plays(*e.running, MID_RUN, RUN_END, FRAME_LEN, true),
            plays(*e.jumping, JUMP_START, JUMP_END, FRAME_LEN, false),
            plays(*e.falling, FALL_START, FALL_END, FRAME_LEN, true),
            plays(*e.landing, LAND_START, LAND_END, FRAME_LEN, false),
    {
        EntityAnims {
            standing: Rc::new(gen_frames(STAND_FRAME, RUN_START, FRAME_LEN, true)),
            start_run: Rc::new(gen_frames(RUN_START, MID_RUN, FRAME_LEN, false)),
            running: Rc::new(gen_frames(MID_RUN, RUN_END, FRAME_LEN, true)),
            jumping: Rc::new(gen_frames(JUMP_START, JUMP_END, FRAME_LEN, false)),
            falling: Rc::new(gen_frames(FALL_START, FALL_END, FRAME_LEN, true)),
            landing: Rc::new(gen_frames(LAND_START, LAND_END, FRAME_LEN, false)),
        }
    }
}

/// Total duration of `n` frames of `len` ticks each.
pub proof fn lemma_total_uniform(frames: Seq<(Rect, usize)>, len: usize)
    requires
        forall|i: int| 0 <= i < frames.len() ==> (#[trigger] frames[i]).1 == len,
    ensures
        total(frames) == frames.len() * len,
    decreases frames.len(),
{
    if frames.len() > 0 {
        lemma_total_uniform(frames.drop_last(), len);
        assert(total(frames) == (frames.len() - 1) * len + len);
        assert((frames.len() - 1) * len + len == frames.len() * len) by (nonlinear_arith);
    }
}

/// An animation of frames `start..end` of the sprite sheet, `len` ticks each.
pub fn gen_frames(start: u16, end: u16, len: usize, looping: bool) -> (a: Animation)
    requires
        start <= end,
        end * FRAME_W <= u16::MAX + FRAME_W,
        (end - start) * len <= usize::MAX,
    ensures
        plays(a, start, end, len, looping),
        a.total_duration() == (end - start) * len,
{
    let mut anim: Vec<(Rect, usize)> = Vec::new();
    let mut frame: u16 = start;
    while frame < end
        invariant
            start <= frame <= end,
            end * FRAME_W <= u16::MAX + FRAME_W,
            anim@ == sheet_frames(start as int, frame as int, len),
        decreases end - frame,
    {
        let w: u16 = FRAME_W;
        let h: u16 = FRAME_H;
        proof {
            assert(frame * 25 <= u16::MAX) by (nonlinear_arith)
                requires
                    frame < end,
                    end * 25 <= u16::MAX + 25,
            ;
        }
        let x = (frame * w) % SHEET_W;
        let y = (frame / SHEET_COLS) * h;
        anim.push((Rect { w, h, x: x as i32, y: y as i32 }, len));
        proof {
            assert(anim@ =~= sheet_frames(start as int, frame + 1, len));
        }
        frame = frame + 1;
    }
    proof {
        lemma_total_uniform(anim@, len);
    }
    Animation::new(anim, looping)
}

} // verus!
