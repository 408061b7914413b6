use std::rc::Rc;

use vstd::prelude::*;

use vstd::arithmetic::div_mod::{
    lemma_add_mod_noop_right, lemma_mod_add_multiples_vanish, lemma_mod_pos_bound, lemma_mod_self_0,
    lemma_small_mod,
};

use crate::types::Rect;

verus! {

/// Sum of the durations of a sequence of frames.
pub open spec fn total(frames: Seq<(Rect, usize)>) -> nat
    decreases frames.len(),
{
    if frames.len() == 0 {
        0
    } else {
        total(frames.drop_last()) + frames.last().1 as nat
    }
}

/// The frame shown at elapsed time `time`, searching from frame `i` whose start
/// lies at `acc`: the first frame whose end (cumulative duration) reaches `time`.
pub open spec fn frame_from(frames: Seq<(Rect, usize)>, time: int, i: int, acc: int) -> Rect
    decreases frames.len() - i,
{
    if i < 0 || i >= frames.len() {
        frames.last().0
    } else if acc + frames[i].1 >= time {
        frames[i].0
    } else {
        frame_from(frames, time, i + 1, acc + frames[i].1)
    }
}

/// The frame shown at elapsed time `time`.
pub open spec fn frame_at(frames: Seq<(Rect, usize)>, time: int) -> Rect {
    frame_from(frames, time, 0, 0)
}

/// Elapsed time after one tick of an animation with the given duration.
pub open spec fn next_time(looping: bool, duration: nat, time: nat) -> nat {
    if looping {
        ((time + 1) as int % (duration as int)) as nat
    } else if time + 1 <= duration {
        time + 1
    } else {
        duration
    }
}

/// Elapsed time after `n` ticks.
pub open spec fn time_after(looping: bool, duration: nat, time: nat, n: nat) -> nat
    decreases n,
{
    if n == 0 {
        time
    } else {
        next_time(looping, duration, time_after(looping, duration, time, (n - 1) as nat))
    }
}

/// Relies on Rc::clone: the new handle shares the value of the old one.
#[verifier::external_body]
pub(crate) fn share<T>(a: &Rc<T>) -> (r: Rc<T>)
    ensures
        r == *a,
{
    Rc::clone(a)
}

/// An immutable table of frames, each shown for a number of ticks.
#[derive(Debug)]
pub struct Animation {
    frames: Vec<(Rect, usize)>,
    looping: bool,
}

impl Animation {
    /// The frames with their durations.
    pub closed spec fn frames(&self) -> Seq<(Rect, usize)> {
        self.frames@
    }

    /// Whether playback wraps around at the end.
    pub closed spec fn looping(&self) -> bool {
        self.looping
    }

    /// Sum of the frame durations.
    pub open spec fn total_duration(&self) -> nat {
        total(self.frames())
    }

    /// The durations add up to a value that a `usize` holds.
    pub open spec fn wf(&self) -> bool {
        self.total_duration() <= usize::MAX
    }

    pub fn new(frames: Vec<(Rect, usize)>, looping: bool) -> (r: Self)
        requires
            total(frames@) <= usize::MAX,
        ensures
            r.frames() == frames@,
            r.looping() == looping,
            r.wf(),
    {
        Self { frames, looping }
    }

    /// A single frame that never advances.
    pub fn freeze(r: Rect) -> (a: Self)
        ensures
            a.frames() == seq![(r, 0usize)],
            !a.looping(),
            a.wf(),
            a.total_duration() == 0,
    {
        let v = vec![(r, 0usize)];
        proof {
            assert(v@.drop_last() =~= Seq::<(Rect, usize)>::empty());
            assert(total(v@) == 0) by {
                reveal_with_fuel(total, 2);
            }
        }
        Self::new(v, false)
    }

    /// A fresh playback cursor at elapsed time 0.
    pub fn start(self: &Rc<Animation>) -> (s: AnimationState)
        requires
            self.wf(),
        ensures
            s == AnimationState::fresh(*self),
            s.animation() == **self,
            s.time() == 0,
            s.wf(),
    {
        AnimationState { animation: share(self), time: 0 }
    }

    pub fn duration(&self) -> (d: usize)
        requires
            self.wf(),
        ensures
            d == self.total_duration(),
    {
        let mut d: usize = 0;
        let mut i: usize = 0;
        while i < self.frames.len()
            invariant
                i <= self.frames@.len(),
                d == total(self.frames@.take(i as int)),
                total(self.frames@) <= usize::MAX,
            decreases self.frames@.len() - i,
        {
            proof {
                lemma_total_prefix_le(self.frames@, i as int + 1);
                assert(self.frames@.take(i as int + 1).drop_last() =~= self.frames@.take(i as int));
            }
            d = d + self.frames[i].1;
            i = i + 1;
        }
        proof {
            assert(self.frames@.take(i as int) =~= self.frames@);
        }
        d
    }
}

/// The total of a prefix never exceeds the total of the whole sequence.
pub proof fn lemma_total_prefix_le(frames: Seq<(Rect, usize)>, n: int)
    requires
        0 <= n <= frames.len(),
    ensures
        total(frames.take(n)) <= total(frames),
    decreases frames.len(),
{
    if n < frames.len() {
        assert(frames.drop_last().take(n) =~= frames.take(n));
        lemma_total_prefix_le(frames.drop_last(), n);
    } else {
        assert(frames.take(n) =~= frames);
    }
}

/// A per-entity playback cursor into a shared animation.
#[derive(Clone, Debug)]
pub struct AnimationState {
    animation: Rc<Animation>,
    time: usize,
}

impl AnimationState {
    /// The animation being played.
    pub closed spec fn animation(&self) -> Animation {
        *self.animation
    }

    /// Elapsed ticks.
    pub closed spec fn time(&self) -> nat {
        self.time as nat
    }

    /// A cursor at the start of `a`.
    pub closed spec fn fresh(a: Rc<Animation>) -> AnimationState {
        AnimationState { animation: a, time: 0 }
    }

    /// The cursor one tick later.
    pub closed spec fn ticked(&self) -> AnimationState {
        AnimationState {
            animation: self.animation,
            time: next_time(
                self.animation().looping(),
                self.animation().total_duration(),
                self.time(),
            ) as usize,
        }
    }

    /// The cursor lies within its animation.
    pub open spec fn wf(&self) -> bool {
        &&& self.animation().wf()
        &&& self.time() <= self.animation().total_duration()
    }

    /// The frame shown now.
    pub open spec fn current_frame(&self) -> Rect {
        frame_at(self.animation().frames(), self.time() as int)
    }

    /// Whether the elapsed time has reached the animation's duration.
    pub open spec fn is_done(&self) -> bool {
        self.time() >= self.animation().total_duration()
    }

    /// The rectangle of the first frame whose cumulative duration reaches the
    /// elapsed time.
    pub fn frame(&self) -> (r: Rect)
        requires
            self.wf(),
            self.animation().frames().len() > 0,
        ensures
            r == self.current_frame(),
    {
        let frames = &self.animation.frames;
        let ghost fs = frames@;
        let mut t: usize = 0;
        let mut i: usize = 0;
        while i < frames.len()
            invariant
                i <= fs.len(),
                fs == frames@,
                fs == self.animation().frames(),
                fs.len() > 0,
                t == total(fs.take(i as int)),
                total(fs) <= usize::MAX,
                self.time <= total(fs),
                i > 0 ==> t < self.time,
                frame_at(fs, self.time as int) == frame_from(fs, self.time as int, i as int, t as int),
            decreases fs.len() - i,
        {
            proof {
                lemma_total_prefix_le(fs, i as int + 1);
                assert(fs.take(i as int + 1).drop_last() =~= fs.take(i as int));
            }
            let ghost t0 = t;
            t = t + frames[i].1;
            proof {
                assert(frame_from(fs, self.time as int, i as int, t0 as int) == if t >= self.time {
                    fs[i as int].0
                } else {
                    frame_from(fs, self.time as int, i + 1, t as int)
                });
            }
            if t >= self.time {
                return frames[i].0;
            }
            i = i + 1;
        }
        proof {
            assert(fs.take(i as int) =~= fs);
        }
        frames[0].0
    }

    /// Elapsed ticks.
    pub fn elapsed(&self) -> (t: usize)
        ensures
            t == self.time(),
    {
        self.time
    }

    pub fn done(&self) -> (r: bool)
        requires
            self.wf(),
        ensures
            r == self.is_done(),
    {
        self.time >= self.animation.duration()
    }

    /// Advances by one tick: wraps at the end of a looping animation, stays on
    /// the end of one that does not loop.
    pub fn tick(&mut self)
        requires
            old(self).wf(),
            old(self).animation().looping() ==> old(self).animation().total_duration() > 0,
        ensures
            *final(self) == old(self).ticked(),
            final(self).wf(),
            final(self).animation() == old(self).animation(),
            final(self).time() == next_time(
                old(self).animation().looping(),
                old(self).animation().total_duration(),
                old(self).time(),
            ),
    {
        let dur = self.animation.duration();
        proof {
            let d = dur as int;
            let t = self.time as int;
            if self.animation.looping {
                if t < d - 1 {
                    lemma_small_mod((t + 1) as nat, d as nat);
                } else if t == d - 1 {
                    lemma_mod_self_0(d);
                } else {
                    lemma_mod_add_multiples_vanish(1, d);
                }
            }
        }
        self.time = if self.animation.looping {
            if self.time < dur - 1 {
                self.time + 1
            } else if self.time == dur - 1 {
                0
            } else {
                1 % dur
            }
        } else if self.time < dur {
            self.time + 1
        } else {
            dur
        };
    }

    /// Switches to a fresh cursor on `anim` when the current animation is done
    /// or when `force` is set; otherwise leaves the cursor as it is.
    pub fn play(&mut self, anim: &Rc<Animation>, force: bool)
        requires
            old(self).wf(),
            anim.wf(),
        ensures
            final(self).wf(),
            (old(self).is_done() || force) ==> final(self).animation() == **anim && final(self).time()
                == 0,
            !(old(self).is_done() || force) ==> *final(self) == *old(self),
    {
        if self.done() || force {
            *self = anim.start();
        }
    }
}

/// What a fresh cursor holds.
pub proof fn lemma_fresh(a: Rc<Animation>)
    ensures
        AnimationState::fresh(a).animation() == *a,
        AnimationState::fresh(a).time() == 0,
        a.wf() ==> AnimationState::fresh(a).wf(),
{
}

/// What a ticked cursor holds: the same animation, one tick later, still
/// within the animation.
pub proof fn lemma_ticked(s: AnimationState)
    ensures
        s.ticked().animation() == s.animation(),
        s.wf() && (s.animation().looping() ==> s.animation().total_duration() > 0)
            ==> s.ticked().time() == next_time(
            s.animation().looping(),
            s.animation().total_duration(),
            s.time(),
        ) && s.ticked().wf(),
{
    if s.wf() {
        let d = s.animation().total_duration();
        if s.animation().looping() && d > 0 {
            lemma_mod_pos_bound(s.time() + 1 as int, d as int);
        }
    }
}

/// The frame shown depends on the animation and the elapsed time alone, so
/// asking for it again without a tick or a switch gives the same rectangle.
pub proof fn lemma_frame_depends_on_cursor(s1: AnimationState, s2: AnimationState)
    requires
        s1.animation() == s2.animation(),
        s1.time() == s2.time(),
    ensures
        s1.current_frame() == s2.current_frame(),
{
}

/// Elapsed time of a looping animation after `n` ticks is the start time plus
/// `n`, modulo the duration.
pub proof fn lemma_looping_time_after(d: nat, t: nat, n: nat)
    requires
        d > 0,
        t <= d,
    ensures
        n > 0 || t < d ==> time_after(true, d, t, n) == (t + n) as int % (d as int),
    decreases n,
{
    if n == 0 {
        if t < d {
            lemma_small_mod(t, d);
        }
    } else {
        let prev = time_after(true, d, t, (n - 1) as nat);
        if n == 1 {
            assert(prev == t);
        } else {
            lemma_looping_time_after(d, t, (n - 1) as nat);
            lemma_mod_pos_bound(t + n - 1, d as int);
            lemma_add_mod_noop_right(1, t + n - 1, d as int);
        }
    }
}

/// A looping animation ticked as many times as its duration comes back to
/// the elapsed time it started from, modulo the duration; a cursor that
/// starts at 0 comes back to 0.
pub proof fn lemma_looping_ticks_return(s: AnimationState)
    requires
        s.wf(),
        s.animation().looping(),
        s.animation().total_duration() > 0,
    ensures
        time_after(true, s.animation().total_duration(), s.time(), s.animation().total_duration())
            == s.time() as int % (s.animation().total_duration() as int),
        s.time() == 0 ==> time_after(
            true,
            s.animation().total_duration(),
            s.time(),
            s.animation().total_duration(),
        ) == 0,
{
    let d = s.animation().total_duration();
    lemma_looping_time_after(d, s.time(), d);
    lemma_mod_add_multiples_vanish(s.time() as int, d as int);
    if s.time() == 0 {
        lemma_mod_self_0(d as int);
    }
}

/// The elapsed time of an animation that does not loop grows by one per tick
/// until it reaches the duration, and stays there under further ticks.
pub proof fn lemma_non_looping_ticks_saturate(s: AnimationState, n: nat)
    requires
        s.wf(),
        !s.animation().looping(),
    ensures
        time_after(false, s.animation().total_duration(), s.time(), n) == if s.time() + n
            <= s.animation().total_duration() {
            s.time() + n
        } else {
            s.animation().total_duration()
        },
        s.time() + n >= s.animation().total_duration() ==> time_after(
            false,
            s.animation().total_duration(),
            s.time(),
            n,
        ) == s.animation().total_duration() && next_time(
            false,
            s.animation().total_duration(),
            time_after(false, s.animation().total_duration(), s.time(), n),
        ) == s.animation().total_duration(),
    decreases n,
{
    if n > 0 {
        lemma_non_looping_ticks_saturate(s, (n - 1) as nat);
    }
}

} // verus!
