use std::rc::Rc;

use platformer_core::animation::Animation;
use platformer_core::types::Rect;

fn r(x: i32) -> Rect {
    Rect { x, y: 0, w: 4, h: 4 }
}

#[test]
fn duration_sums_frame_durations() {
    let a = Animation::new(vec![(r(0), 2), (r(1), 3), (r(2), 4)], true);
    assert_eq!(a.duration(), 9);
    let empty = Animation::new(vec![], false);
    assert_eq!(empty.duration(), 0);
}

#[test]
fn frame_is_first_whose_end_reaches_time() {
    let a = Rc::new(Animation::new(vec![(r(0), 2), (r(1), 3)], false));
    let mut s = a.start();
    // times 0..=2 show the first frame, 3..=5 the second
    let mut seen = Vec::new();
    for _ in 0..6 {
        seen.push(s.frame().x);
        s.tick();
    }
    assert_eq!(seen, vec![0, 0, 0, 1, 1, 1]);
}

#[test]
fn looping_ticks_return_to_start() {
    let a = Rc::new(Animation::new(vec![(r(0), 2), (r(1), 3)], true));
    let mut s = a.start();
    assert_eq!(s.elapsed(), 0);
    for _ in 0..a.duration() {
        s.tick();
    }
    assert_eq!(s.elapsed(), 0);
    s.tick();
    s.tick();
    assert_eq!(s.elapsed(), 2);
    for _ in 0..a.duration() {
        s.tick();
    }
    assert_eq!(s.elapsed(), 2);
}

#[test]
fn non_looping_ticks_saturate() {
    let a = Rc::new(Animation::new(vec![(r(0), 1), (r(1), 2)], false));
    let mut s = a.start();
    assert!(!s.done());
    for _ in 0..3 {
        s.tick();
    }
    assert_eq!(s.elapsed(), 3);
    assert!(s.done());
    for _ in 0..10 {
        s.tick();
        assert_eq!(s.elapsed(), 3);
    }
    assert_eq!(s.frame(), r(1));
}

#[test]
fn frame_is_idempotent_between_ticks() {
    let a = Rc::new(Animation::new(vec![(r(0), 1), (r(1), 1), (r(2), 1)], true));
    let mut s = a.start();
    s.tick();
    s.tick();
    let first = s.frame();
    assert_eq!(s.frame(), first);
    assert_eq!(s.frame(), first);
    assert_eq!(first, r(1));
}

#[test]
fn play_switches_only_when_done_or_forced() {
    let a = Rc::new(Animation::new(vec![(r(0), 2)], false));
    let b = Rc::new(Animation::new(vec![(r(7), 5)], true));
    let mut s = a.start();
    s.tick();
    s.play(&b, false);
    assert_eq!(s.elapsed(), 1);
    assert_eq!(s.frame(), r(0));
    s.play(&b, true);
    assert_eq!(s.elapsed(), 0);
    assert_eq!(s.frame(), r(7));

    let mut t = a.start();
    t.tick();
    t.tick();
    assert!(t.done());
    t.play(&b, false);
    assert_eq!(t.elapsed(), 0);
    assert_eq!(t.frame(), r(7));
}

#[test]
fn freeze_shows_one_frame_forever() {
    let a = Rc::new(Animation::freeze(r(5)));
    assert_eq!(a.duration(), 0);
    let mut s = a.start();
    assert!(s.done());
    s.tick();
    assert_eq!(s.elapsed(), 0);
    assert_eq!(s.frame(), r(5));
}
