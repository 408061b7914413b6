use vstd::prelude::*;

use crate::animation::{lemma_fresh, lemma_ticked, next_time, AnimationState};
use crate::behavior::{
    airborne, behave, lemma_behave_tickable, samples_fit, update_velocity, SoundCue,
};
use crate::collision::{
    body_rect, contacts_of, corner_points, corners_fit, gather_contacts, killed, killed_by,
    land_cursors, lemma_contacts_gathered, lemma_resolve_all_lengths, maps_wf, moves_fit, resolve_all, restitute,
    spiked_any, WallContact,
};
use crate::state::{EntityAnims, EntityState, Inputs};
use crate::tiles::Tilemap;
use crate::types::{Rect, Vec2i};

verus! {

/// The cursor is well formed and, when its animation loops, the animation
/// lasts at least one tick, so the cursor can be ticked.
pub open spec fn tickable(a: AnimationState) -> bool {
    a.wf() && (a.animation().looping() ==> a.animation().total_duration() > 0)
}

/// Advances every cursor by one tick.
pub fn tick_all(anims: &mut Vec<AnimationState>)
    requires
        forall|i: int| 0 <= i < old(anims)@.len() ==> tickable(#[trigger] old(anims)@[i]),
    ensures
        final(anims)@.len() == old(anims)@.len(),
        forall|i: int|
            0 <= i < old(anims)@.len() ==> {
                &&& tickable(#[trigger] final(anims)@[i])
                &&& final(anims)@[i] == old(anims)@[i].ticked()
                &&& final(anims)@[i].animation() == old(anims)@[i].animation()
                &&& final(anims)@[i].time() == next_time(
                    old(anims)@[i].animation().looping(),
                    old(anims)@[i].animation().total_duration(),
                    old(anims)@[i].time(),
                )
            },
{
    let ghost start = anims@;
    let mut i: usize = 0;
    while i < anims.len()
        invariant
            i <= anims@.len(),
            anims@.len() == start.len(),
            forall|k: int| 0 <= k < start.len() ==> tickable(#[trigger] start[k]),
            forall|k: int| i <= k < start.len() ==> #[trigger] anims@[k] == start[k],
            forall|k: int|
                0 <= k < i ==> {
                    &&& tickable(#[trigger] anims@[k])
                    &&& anims@[k] == start[k].ticked()
                    &&& anims@[k].animation() == start[k].animation()
                    &&& anims@[k].time() == next_time(
                        start[k].animation().looping(),
                        start[k].animation().total_duration(),
                        start[k].time(),
                    )
                },
        decreases anims@.len() - i,
    {
        anims[i].tick();
        i = i + 1;
    }
}

/// Moves each entity by its velocity.
pub fn integrate(positions: &mut Vec<Vec2i>, vels: &Vec<Vec2i>)
    requires
        old(positions)@.len() == vels@.len(),
        forall|i: int|
            0 <= i < vels@.len() ==> i32::MIN <= (#[trigger] old(positions)@[i]).0 + vels@[i].0
                <= i32::MAX && i32::MIN <= old(positions)@[i].1 + vels@[i].1 <= i32::MAX,
    ensures
        final(positions)@.len() == old(positions)@.len(),
        forall|i: int|
            0 <= i < vels@.len() ==> (#[trigger] final(positions)@[i]).0 == old(positions)@[i].0
                + vels@[i].0 && final(positions)@[i].1 == old(positions)@[i].1 + vels@[i].1,
{
    let ghost start = positions@;
    let mut i: usize = 0;
    while i < positions.len()
        invariant
            i <= positions@.len(),
            positions@.len() == start.len(),
            start.len() == vels@.len(),
            forall|k: int|
                0 <= k < vels@.len() ==> i32::MIN <= (#[trigger] start[k]).0 + vels@[k].0
                    <= i32::MAX && i32::MIN <= start[k].1 + vels@[k].1 <= i32::MAX,
            forall|k: int| i <= k < start.len() ==> #[trigger] positions@[k] == start[k],
            forall|k: int|
                0 <= k < i ==> (#[trigger] positions@[k]).0 == start[k].0 + vels@[k].0
                    && positions@[k].1 == start[k].1 + vels@[k].1,
        decreases positions@.len() - i,
    {
        let p = positions[i];
        let v = vels[i];
        positions[i] = Vec2i(p.0 + v.0, p.1 + v.1);
        i = i + 1;
    }
}

/// The contacts of entities `0..n`, entity after entity.
pub open spec fn all_contacts(
    maps: Seq<Tilemap>,
    ps: Seq<Vec2i>,
    sizes: Seq<(usize, usize)>,
    n: int,
) -> Seq<WallContact>
    decreases n,
{
    if n <= 0 {
        Seq::empty()
    } else {
        all_contacts(maps, ps, sizes, n - 1) + contacts_of(
            maps,
            corner_points(body_rect(ps[n - 1], sizes[n - 1])),
            body_rect(ps[n - 1], sizes[n - 1]),
            (n - 1) as usize,
        )
    }
}

/// Some corner of one of entities `0..n` lies in a spike.
pub open spec fn any_spiked(maps: Seq<Tilemap>, ps: Seq<Vec2i>, sizes: Seq<(usize, usize)>, n: int) -> bool {
    exists|i: int| 0 <= i < n && spiked_any(maps, corner_points(body_rect(ps[i], sizes[i])))
}

/// Gathers the contacts of every entity, in entity order, with the rectangle
/// its position and size give. Returns whether any corner lies in a spike.
pub fn gather_all(
    maps: &Vec<Tilemap>,
    positions: &Vec<Vec2i>,
    sizes: &Vec<(usize, usize)>,
    contacts: &mut Vec<WallContact>,
) -> (game_over: bool)
    requires
        maps_wf(maps@),
        positions@.len() == sizes@.len(),
        forall|i: int|
            0 <= i < sizes@.len() ==> (#[trigger] sizes@[i]).0 <= u16::MAX && sizes@[i].1 <= u16::MAX
                && corners_fit(body_rect(positions@[i], sizes@[i])),
    ensures
        final(contacts)@ == old(contacts)@ + all_contacts(maps@, positions@, sizes@, positions@.len() as int),
        game_over == any_spiked(maps@, positions@, sizes@, positions@.len() as int),
{
    let mut game_over = false;
    let mut i: usize = 0;
    let ghost start = contacts@;
    while i < positions.len()
        invariant
            i <= positions@.len(),
            positions@.len() == sizes@.len(),
            maps_wf(maps@),
            forall|k: int|
                0 <= k < sizes@.len() ==> (#[trigger] sizes@[k]).0 <= u16::MAX && sizes@[k].1
                    <= u16::MAX && corners_fit(body_rect(positions@[k], sizes@[k])),
            contacts@ == start + all_contacts(maps@, positions@, sizes@, i as int),
            game_over == any_spiked(maps@, positions@, sizes@, i as int),
        decreases positions@.len() - i,
    {
        let p = positions[i];
        let s = sizes[i];
        let body = Rect { x: p.0, y: p.1, w: s.0 as u16, h: s.1 as u16 };
        let ghost before = contacts@;
        proof {
            assert(body == body_rect(positions@[i as int], sizes@[i as int]));
            assert(corners_fit(body));
        }
        let hit = gather_contacts(maps, &body, i, contacts);
        proof {
            assert(contacts@ =~= start + all_contacts(maps@, positions@, sizes@, i + 1));
            if hit {
                assert(any_spiked(maps@, positions@, sizes@, i + 1)) by {
                    assert(0 <= i < i + 1 && spiked_any(
                        maps@,
                        corner_points(body_rect(positions@[i as int], sizes@[i as int])),
                    ));
                }
            }
            if game_over {
                let k = choose|k: int|
                    0 <= k < i && spiked_any(
                        maps@,
                        corner_points(body_rect(positions@[k], sizes@[k])),
                    );
                assert(0 <= k < i + 1);
            }
        }
        if hit {
            game_over = true;
        }
        i = i + 1;
    }
    game_over
}

/// Every gathered contact names one of entities `0..n`.
pub proof fn lemma_all_contacts_ids(
    maps: Seq<Tilemap>,
    ps: Seq<Vec2i>,
    sizes: Seq<(usize, usize)>,
    n: int,
)
    requires
        n <= usize::MAX + 1,
    ensures
        forall|k: int|
            0 <= k < all_contacts(maps, ps, sizes, n).len() ==> 0 <= (#[trigger] all_contacts(
                maps,
                ps,
                sizes,
                n,
            )[k]).entity_id < n,
    decreases n,
{
    if n > 0 {
        lemma_all_contacts_ids(maps, ps, sizes, n - 1);
        let e = body_rect(ps[n - 1], sizes[n - 1]);
        lemma_contacts_gathered(maps, corner_points(e), e, (n - 1) as usize);
        let a = all_contacts(maps, ps, sizes, n - 1);
        let b = contacts_of(maps, corner_points(e), e, (n - 1) as usize);
        assert forall|k: int| 0 <= k < all_contacts(maps, ps, sizes, n).len() implies 0 <= (
        #[trigger] all_contacts(maps, ps, sizes, n)[k]).entity_id < n by {
            if k < a.len() {
                assert(all_contacts(maps, ps, sizes, n)[k] == a[k]);
            } else {
                assert(all_contacts(maps, ps, sizes, n)[k] == b[k - a.len()]);
            }
        }
    }
}

/// The rectangles the entities occupy.
pub open spec fn bodies(ps: Seq<Vec2i>, sizes: Seq<(usize, usize)>) -> Seq<Rect> {
    Seq::new(ps.len(), |i: int| body_rect(ps[i], sizes[i]))
}

/// The first stages of a frame: every cursor ticked, then the behaviour
/// table applied to each entity where it stood, then every entity moved by
/// its new velocity, then the contacts gathered where they now stand.
/// Returns the table's results, the moved positions and the contacts.
pub open spec fn frame_stages(
    ps: Seq<Vec2i>,
    ss: Seq<EntityState>,
    vs: Seq<Vec2i>,
    sizes: Seq<(usize, usize)>,
    anims: Seq<AnimationState>,
    inputs: Seq<Inputs>,
    level: Seq<Tilemap>,
    ent_anims: EntityAnims,
    cap: i32,
) -> (Seq<(EntityState, Vec2i, AnimationState, Option<SoundCue>)>, Seq<Vec2i>, Seq<WallContact>) {
    let table = Seq::new(
        ps.len(),
        |i: int|
            behave(
                ss[i],
                vs[i],
                anims[i].ticked(),
                inputs[i],
                airborne(level, body_rect(ps[i], sizes[i])),
                ent_anims,
                cap,
            ),
    );
    let moved = Seq::new(
        ps.len(),
        |i: int| Vec2i((ps[i].0 + table[i].1.0) as i32, (ps[i].1 + table[i].1.1) as i32),
    );
    (table, moved, all_contacts(level, moved, sizes, ps.len() as int))
}

/// Nothing in the frame leaves the range of `i32`: the ground samples
/// before moving, the moved positions, their corners, and every correction.
pub open spec fn frame_fits(
    ps: Seq<Vec2i>,
    ss: Seq<EntityState>,
    vs: Seq<Vec2i>,
    sizes: Seq<(usize, usize)>,
    anims: Seq<AnimationState>,
    inputs: Seq<Inputs>,
    level: Seq<Tilemap>,
    ent_anims: EntityAnims,
    cap: i32,
) -> bool {
    let st = frame_stages(ps, ss, vs, sizes, anims, inputs, level, ent_anims, cap);
    &&& forall|i: int|
        0 <= i < ps.len() ==> {
            &&& (#[trigger] sizes[i]).0 <= u16::MAX
            &&& sizes[i].1 <= u16::MAX
            &&& samples_fit(body_rect(ps[i], sizes[i]))
            &&& i32::MIN <= ps[i].0 + st.0[i].1.0 <= i32::MAX
            &&& i32::MIN <= ps[i].1 + st.0[i].1.1 <= i32::MAX
            &&& corners_fit(body_rect(st.1[i], sizes[i]))
        }
    &&& moves_fit(st.1, st.0.map_values(|e: (EntityState, Vec2i, AnimationState, Option<SoundCue>)| e.0), st.0.map_values(|e: (EntityState, Vec2i, AnimationState, Option<SoundCue>)| e.1), sizes, st.2)
}

/// One simulated frame for all entities: ticks every cursor, applies the
/// behaviour table to each entity, moves each by its velocity, gathers and
/// resolves contacts with the level, and tests entity 0 against all others.
/// Returns whether the frame was fatal, and the sound each entity asked for.
pub fn step_frame(
    positions: &mut Vec<Vec2i>,
    states: &mut Vec<EntityState>,
    vels: &mut Vec<Vec2i>,
    sizes: &Vec<(usize, usize)>,
    anims: &mut Vec<AnimationState>,
    inputs: &Vec<Inputs>,
    level: &Vec<Tilemap>,
    ent_anims: &EntityAnims,
    max_speed: i32,
) -> (out: (bool, Vec<Option<SoundCue>>))
    requires
        old(positions)@.len() >= 1,
        old(states)@.len() == old(positions)@.len(),
        old(vels)@.len() == old(positions)@.len(),
        sizes@.len() == old(positions)@.len(),
        old(anims)@.len() == old(positions)@.len(),
        inputs@.len() == old(positions)@.len(),
        maps_wf(level@),
        ent_anims.wf(),
        max_speed >= 0,
        forall|i: int| 0 <= i < old(anims)@.len() ==> tickable(#[trigger] old(anims)@[i]),
        frame_fits(
            old(positions)@,
            old(states)@,
            old(vels)@,
            sizes@,
            old(anims)@,
            inputs@,
            level@,
            *ent_anims,
            max_speed,
        ),
    ensures
        ({
            let st = frame_stages(
                old(positions)@,
                old(states)@,
                old(vels)@,
                sizes@,
                old(anims)@,
                inputs@,
                level@,
                *ent_anims,
                max_speed,
            );
            let s2 = st.0.map_values(|e: (EntityState, Vec2i, AnimationState, Option<SoundCue>)| e.0);
            let v2 = st.0.map_values(|e: (EntityState, Vec2i, AnimationState, Option<SoundCue>)| e.1);
            let a2 = st.0.map_values(|e: (EntityState, Vec2i, AnimationState, Option<SoundCue>)| e.2);
            let r = resolve_all(st.1, s2, v2, sizes@, st.2);
            let bs = bodies(r.0, sizes@);
            &&& final(positions)@ == r.0
            &&& final(states)@ == r.1
            &&& final(vels)@ == r.2
            &&& final(anims)@ == land_cursors(a2, s2, r.1, ent_anims.landing)
            &&& forall|i: int| 0 <= i < final(anims)@.len() ==> tickable(#[trigger] final(anims)@[i])
            &&& out.1@ == st.0.map_values(|e: (EntityState, Vec2i, AnimationState, Option<SoundCue>)| e.3)
            &&& out.0 == (any_spiked(level@, st.1, sizes@, st.1.len() as int) || r.3 || killed_by(
                bs[0],
                bs.skip(1),
            ))
        }),
{
    let ghost start_pos = positions@;
    let ghost start_states = states@;
    let ghost start_vels = vels@;
    let ghost start_anims = anims@;
    let ghost st = frame_stages(start_pos, start_states, start_vels, sizes@, start_anims, inputs@, level@, *ent_anims, max_speed);
    tick_all(anims);
    let mut cues: Vec<Option<SoundCue>> = Vec::new();
    let n = positions.len();
    let mut i: usize = 0;
    while i < n
        invariant
            n == start_pos.len(),
            i <= n,
            positions@ == start_pos,
            states@.len() == n,
            vels@.len() == n,
            anims@.len() == n,
            sizes@.len() == n,
            inputs@.len() == n,
            cues@.len() == i,
            maps_wf(level@),
            ent_anims.wf(),
            max_speed >= 0,
            st == frame_stages(start_pos, start_states, start_vels, sizes@, start_anims, inputs@, level@, *ent_anims, max_speed),
            frame_fits(start_pos, start_states, start_vels, sizes@, start_anims, inputs@, level@, *ent_anims, max_speed),
            forall|k: int| 0 <= k < n ==> tickable(#[trigger] start_anims[k]),
            forall|k: int| i <= k < n ==> #[trigger] states@[k] == start_states[k],
            forall|k: int| i <= k < n ==> #[trigger] vels@[k] == start_vels[k],
            forall|k: int| i <= k < n ==> #[trigger] anims@[k] == start_anims[k].ticked(),
            forall|k: int| 0 <= k < i ==> #[trigger] states@[k] == st.0[k].0,
            forall|k: int| 0 <= k < i ==> #[trigger] vels@[k] == st.0[k].1,
            forall|k: int| 0 <= k < i ==> #[trigger] anims@[k] == st.0[k].2,
            forall|k: int| 0 <= k < i ==> #[trigger] cues@[k] == st.0[k].3,
        decreases n - i,
    {
        let p = positions[i];
        let size = sizes[i];
        let body = Rect { x: p.0, y: p.1, w: size.0 as u16, h: size.1 as u16 };
        proof {
            assert(body == body_rect(start_pos[i as int], sizes@[i as int]));
            assert(samples_fit(body));
            lemma_ticked(start_anims[i as int]);
            assert(anims@[i as int].wf());
        }
        let cue = update_velocity(
            &mut states[i],
            body,
            &mut vels[i],
            level,
            &mut anims[i],
            &inputs[i],
            ent_anims,
            max_speed,
        );
        cues.push(cue);
        i = i + 1;
    }
    let ghost s2 = states@;
    let ghost v2 = vels@;
    let ghost a2 = anims@;
    proof {
        assert(s2 =~= st.0.map_values(|e: (EntityState, Vec2i, AnimationState, Option<SoundCue>)| e.0));
        assert(v2 =~= st.0.map_values(|e: (EntityState, Vec2i, AnimationState, Option<SoundCue>)| e.1));
        assert(a2 =~= st.0.map_values(|e: (EntityState, Vec2i, AnimationState, Option<SoundCue>)| e.2));
        assert(cues@ =~= st.0.map_values(|e: (EntityState, Vec2i, AnimationState, Option<SoundCue>)| e.3));
    }
    integrate(positions, vels);
    proof {
        assert(positions@ =~= st.1);
    }
    let mut contacts: Vec<WallContact> = Vec::new();
    let spiked = gather_all(level, positions, sizes, &mut contacts);
    proof {
        assert(contacts@ =~= st.2);
        lemma_all_contacts_ids(level@, st.1, sizes@, n as int);
    }
    let crushed = restitute(positions, states, vels, sizes, &mut contacts, anims, ent_anims);
    proof {
        lemma_resolve_all_lengths(st.1, s2, v2, sizes@, st.2);
        lemma_fresh(ent_anims.landing);
        assert forall|k: int| 0 <= k < anims@.len() implies tickable(#[trigger] anims@[k]) by {
            lemma_ticked(start_anims[k]);
            lemma_behave_tickable(
                start_states[k],
                start_vels[k],
                start_anims[k].ticked(),
                inputs@[k],
                airborne(level@, body_rect(start_pos[k], sizes@[k])),
                *ent_anims,
                max_speed,
            );
            assert(a2[k] == st.0[k].2);
        }
    }
    let mut others: Vec<Rect> = Vec::new();
    let mut j: usize = 1;
    while j < n
        invariant
            1 <= j <= n,
            positions@.len() == n,
            sizes@.len() == n,
            others@ == bodies(positions@, sizes@).skip(1).take(j - 1),
            forall|k: int|
                0 <= k < n ==> (#[trigger] sizes@[k]).0 <= u16::MAX && sizes@[k].1 <= u16::MAX,
        decreases n - j,
    {
        let p = positions[j];
        let size = sizes[j];
        others.push(Rect { x: p.0, y: p.1, w: size.0 as u16, h: size.1 as u16 });
        proof {
            assert(others@ =~= bodies(positions@, sizes@).skip(1).take(j as int));
        }
        j = j + 1;
    }
    let p = positions[0];
    let size = sizes[0];
    let player = Rect { x: p.0, y: p.1, w: size.0 as u16, h: size.1 as u16 };
    proof {
        assert(others@ =~= bodies(positions@, sizes@).skip(1));
    }
    let caught = killed(&player, others.as_slice());
    (spiked || crushed || caught, cues)
}

} // verus!
