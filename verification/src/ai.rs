//! The per-entity behavior state machine, advanced once per turn.

use vstd::prelude::*;
use vstd::string::StringExecFns;
use crate::color::red;
use crate::fov::{Fov, fov_wf, fov_at};
use crate::game::{
    Game, same_but_messages, spec_blocked, step_toward, mut_two, move_towards, move_by,
    lemma_blocked_same,
};
use crate::object::{
    Object, Ai, obj_wf, objs_wf, pos_ok, inv_ok, spec_dist2, spec_power, spec_defense, spec_reward,
    spec_damaged, Fighter, XP_CAP,
};
use crate::rng::rand_range_i32;
use crate::tile::map_ok;

verus! {

/// One advance of the behavior state machine, apart from its effects on
/// the world. `Basic` is terminal-looping; `Confused` counts down while
/// nonnegative and reverts to the wrapped state once exhausted.
pub open spec fn spec_ai_step(ai: Ai) -> Ai {
    match ai {
        Ai::Basic => Ai::Basic,
        Ai::Confused { previous_ai, num_turns } => {
            if num_turns >= 0 {
                Ai::Confused { previous_ai, num_turns: (num_turns - 1) as i32 }
            } else {
                *previous_ai
            }
        },
    }
}

/// `k` advances of the behavior state machine.
pub open spec fn spec_ai_step_k(ai: Ai, k: nat) -> Ai
    decreases k,
{
    if k == 0 {
        ai
    } else {
        spec_ai_step_k(spec_ai_step(ai), (k - 1) as nat)
    }
}

/// A confusion entered with `n` remaining turns is still confused after any
/// `k <= n + 1` advances, holding `n - k` remaining turns.
pub proof fn lemma_confused_holds(prev: Ai, n: int, k: int)
    requires
        0 <= n <= i32::MAX,
        0 <= k <= n + 1,
    ensures
        spec_ai_step_k(
            Ai::Confused { previous_ai: Box::new(prev), num_turns: n as i32 },
            k as nat,
        ) == (Ai::Confused { previous_ai: Box::new(prev), num_turns: (n - k) as i32 }),
    decreases k,
{
    if k > 0 {
        if n == 0 {
            assert(k == 1);
        } else {
            lemma_confused_holds(prev, n - 1, k - 1);
        }
    }
}

/// A confusion entered with `n` remaining turns reverts to the wrapped
/// state exactly on advance `n + 2`: the advance that sees the counter
/// at `n` decrements it toward -1, and the advance after the counter has
/// gone negative restores the previous state.
pub proof fn lemma_confused_reverts(prev: Ai, n: int)
    requires
        0 <= n <= i32::MAX,
    ensures
        spec_ai_step_k(
            Ai::Confused { previous_ai: Box::new(prev), num_turns: n as i32 },
            (n + 2) as nat,
        ) == prev,
    decreases n,
{
    if n == 0 {
        let c0 = Ai::Confused { previous_ai: Box::new(prev), num_turns: 0 };
        let c1 = Ai::Confused { previous_ai: Box::new(prev), num_turns: -1i32 };
        assert(spec_ai_step(c0) == c1);
        assert(spec_ai_step(c1) == prev);
        assert(spec_ai_step_k(c0, 2) == spec_ai_step_k(c1, 1));
        assert(spec_ai_step_k(c1, 1) == spec_ai_step_k(prev, 0));
        assert(spec_ai_step_k(prev, 0) == prev);
    } else {
        lemma_confused_reverts(prev, n - 1);
    }
}

/// What a Basic turn does to the world: outside the player's field of view
/// nothing; at squared distance >= 4 (Euclidean distance >= 2) one step
/// toward the player; otherwise an attack on the player if it is alive.
pub open spec fn spec_basic_turn(
    objs_old: Seq<Object>,
    objs_new: Seq<Object>,
    fov: Fov,
    map: crate::tile::DungeonMap,
    inv: Seq<Object>,
    mid: int,
) -> bool {
    let m = objs_old[mid];
    let p = objs_old[0];
    if !fov_at(fov, m.x as int, m.y as int) {
        objs_new == objs_old
    } else if spec_dist2(m.x as int, m.y as int, p.x as int, p.y as int) >= 4 {
        let step = step_toward(p.x - m.x, p.y - m.y);
        if !spec_blocked(m.x + step.0, m.y + step.1, map, objs_old) {
            objs_new == objs_old.update(
                mid,
                Object { x: (m.x + step.0) as i32, y: (m.y + step.1) as i32, ..m },
            )
        } else {
            objs_new == objs_old
        }
    } else if p.fighter is Some && p.fighter->0.hp > 0 {
        let damage = spec_power(m, inv) - spec_defense(p, inv);
        if damage > 0 {
            let reward = spec_reward(p, damage);
            &&& objs_new.len() == objs_old.len()
            &&& spec_damaged(p, damage, objs_new[0])
            &&& objs_new[mid] == (Object {
                fighter: Some(
                    Fighter {
                        xp: (m.fighter->0.xp + (if reward is Some {
                            reward->0 as int
                        } else {
                            0
                        })) as i32,
                        ..m.fighter->0
                    },
                ),
                ..m
            })
            &&& forall|j: int| 0 <= j < objs_old.len() && j != 0 && j != mid ==> objs_new[j] == objs_old[j]
        } else {
            objs_new == objs_old
        }
    } else {
        objs_new == objs_old
    }
}

/// A basic monster takes its turn: if you can see it, it can see you.
fn ai_basic(monster_id: usize, fov: &Fov, game: &mut Game, objects: &mut Vec<Object>) -> (r: Ai)
    requires
        0 < monster_id < old(objects).len(),
        objs_wf(old(objects)@),
        map_ok(old(game).map),
        fov_wf(*fov),
        inv_ok(old(game).inventory@),
        old(objects)@[monster_id as int].fighter is Some,
        old(objects)@[0].fighter is Some ==> old(objects)@[monster_id as int].fighter->0.xp + old(
            objects,
        )@[0].fighter->0.xp <= XP_CAP,
    ensures
        r == Ai::Basic,
        final(objects)@.len() == old(objects)@.len(),
        objs_wf(final(objects)@),
        same_but_messages(*old(game), *final(game)),
        spec_basic_turn(
            old(objects)@,
            final(objects)@,
            *fov,
            old(game).map,
            old(game).inventory@,
            monster_id as int,
        ),
        final(objects)@[monster_id as int].ai == old(objects)@[monster_id as int].ai,
{
    let monster_x = objects[monster_id].x;
    let monster_y = objects[monster_id].y;
    if fov.is_in_fov(monster_x, monster_y) {
        if objects[monster_id].distance2_to(&objects[0]) >= 4 {
            // move towards player if far away
            let player_x = objects[0].x;
            let player_y = objects[0].y;
            move_towards(monster_id, player_x, player_y, &game.map, objects);
        } else {
            let player_alive = match &objects[0].fighter {
                Some(f) => f.hp > 0,
                None => false,
            };
            if player_alive {
                // close enough, attack! (if the player is still alive.)
                let (monster, player) = mut_two(monster_id, 0, objects.as_mut_slice());
                monster.attack(player, game);
            }
        }
    }
    proof {
        let objs = old(objects)@;
        assert(objs.update(monster_id as int, objs[monster_id as int]) =~= objs);
        assert(objs.update(monster_id as int, objs[monster_id as int]).update(0, objs[0]) =~= objs);
    }
    Ai::Basic
}

/// A confused monster takes its turn: while turns remain it moves in a
/// random direction and counts down; once the counter has gone negative it
/// reverts to the state it was confused from.
fn ai_confused(
    monster_id: usize,
    game: &mut Game,
    objects: &mut Vec<Object>,
    previous_ai: Box<Ai>,
    num_turns: i32,
) -> (r: (Ai, Ghost<(int, int)>))
    requires
        0 < monster_id < old(objects).len(),
        objs_wf(old(objects)@),
        map_ok(old(game).map),
    ensures
        r.0 == spec_ai_step(Ai::Confused { previous_ai, num_turns }),
        final(objects)@.len() == old(objects)@.len(),
        objs_wf(final(objects)@),
        same_but_messages(*old(game), *final(game)),
        num_turns >= 0 ==> ({
            let (dx, dy) = r.1@;
            let m = old(objects)@[monster_id as int];
            &&& -1 <= dx <= 1
            &&& -1 <= dy <= 1
            &&& (spec_blocked(m.x + dx, m.y + dy, old(game).map, old(objects)@)
                ==> final(objects)@ == old(objects)@)
            &&& (!spec_blocked(m.x + dx, m.y + dy, old(game).map, old(objects)@)
                ==> final(objects)@ == old(objects)@.update(
                monster_id as int,
                Object { x: (m.x + dx) as i32, y: (m.y + dy) as i32, ..m },
            ))
        }),
        num_turns < 0 ==> final(objects)@ == old(objects)@,
{
    if num_turns >= 0 {
        // still confused: move in a random direction and count down
        let dx = rand_range_i32(-1, 2);
        let dy = rand_range_i32(-1, 2);
        move_by(monster_id, dx, dy, &game.map, objects);
        (Ai::Confused { previous_ai, num_turns: num_turns - 1 }, Ghost((dx as int, dy as int)))
    } else {
        // restore the previous AI (this one will be deleted)
        let mut text = String::from_str("The ");
        text.append(objects[monster_id].name.as_str());
        text.append(" is no longer confused!");
        game.messages.add(text, red());
        (*previous_ai, Ghost((0int, 0int)))
    }
}

/// Advance the entity's behavior state machine by one turn, performing its
/// effects on the world: nothing without an AI; a step toward or an attack
/// on the player for Basic; a random step and a countdown, or the reversion
/// to the wrapped state, for Confused.
pub fn ai_take_turn(monster_id: usize, fov: &Fov, game: &mut Game, objects: &mut Vec<Object>)
    requires
        0 < monster_id < old(objects).len(),
        objs_wf(old(objects)@),
        map_ok(old(game).map),
        fov_wf(*fov),
        inv_ok(old(game).inventory@),
        old(objects)@[monster_id as int].ai == Some(Ai::Basic) ==> old(
            objects,
        )@[monster_id as int].fighter is Some,
        (old(objects)@[monster_id as int].fighter is Some && old(objects)@[0].fighter is Some)
            ==> old(objects)@[monster_id as int].fighter->0.xp + old(objects)@[0].fighter->0.xp
            <= XP_CAP,
    ensures
        final(objects)@.len() == old(objects)@.len(),
        objs_wf(final(objects)@),
        same_but_messages(*old(game), *final(game)),
        ({
            let a0 = old(objects)@[monster_id as int].ai;
            match a0 {
                None => final(objects)@ == old(objects)@ && *final(game) == *old(game),
                Some(a) => final(objects)@[monster_id as int].ai == Some(spec_ai_step(a)),
            }
        }),
        old(objects)@[monster_id as int].ai == Some(Ai::Basic) ==> spec_basic_turn(
            old(objects)@,
            final(objects)@,
            *fov,
            old(game).map,
            old(game).inventory@,
            monster_id as int,
        ),
        (old(objects)@[monster_id as int].ai matches Some(Ai::Confused { previous_ai, num_turns })
            && num_turns >= 0) ==> exists|dx: int, dy: int|
            #![trigger spec_blocked(old(objects)@[monster_id as int].x + dx, old(objects)@[monster_id as int].y + dy, old(game).map, old(objects)@)]
            {
                let m = old(objects)@[monster_id as int];
                let stepped = spec_ai_step(m.ai->0);
                &&& -1 <= dx <= 1
                &&& -1 <= dy <= 1
                &&& (spec_blocked(m.x + dx, m.y + dy, old(game).map, old(objects)@)
                    ==> final(objects)@ == old(objects)@.update(
                    monster_id as int,
                    Object { ai: Some(stepped), ..m },
                ))
                &&& (!spec_blocked(m.x + dx, m.y + dy, old(game).map, old(objects)@)
                    ==> final(objects)@ == old(objects)@.update(
                    monster_id as int,
                    Object {
                        x: (m.x + dx) as i32,
                        y: (m.y + dy) as i32,
                        ai: Some(stepped),
                        ..m
                    },
                ))
            },
        (old(objects)@[monster_id as int].ai matches Some(Ai::Confused { previous_ai, num_turns })
            && num_turns < 0) ==> final(objects)@ == old(objects)@.update(
            monster_id as int,
            Object {
                ai: Some(*old(objects)@[monster_id as int].ai->0->Confused_previous_ai),
                ..old(objects)@[monster_id as int]
            },
        ),
        forall|j: int|
            0 <= j < old(objects)@.len() && j != 0 && j != monster_id as int
                ==> final(objects)@[j] == old(objects)@[j],
{
    let is_basic = match &objects[monster_id].ai {
        Some(Ai::Basic) => true,
        _ => false,
    };
    let has_ai = objects[monster_id].ai.is_some();
    if is_basic {
        let new_ai = ai_basic(monster_id, fov, game, objects);
        let ghost turned = objects@;
        let o = &mut objects[monster_id];
        o.ai = Some(new_ai);
        proof {
            assert(objects@ == turned.update(
                monster_id as int,
                Object { ai: Some(Ai::Basic), ..turned[monster_id as int] },
            ));
            assert(turned[monster_id as int] == (Object {
                ai: Some(Ai::Basic),
                ..turned[monster_id as int]
            }));
            assert(objects@ =~= turned);
        }
    } else if has_ai {
        let o = &mut objects[monster_id];
        let taken = o.ai.take();
        let ghost mid_objs = objects@;
        proof {
            assert(mid_objs =~= old(objects)@.update(
                monster_id as int,
                Object { ai: None, ..old(objects)@[monster_id as int] },
            ));
        }
        if let Some(Ai::Confused { previous_ai, num_turns }) = taken {
            let (new_ai, step_taken) = ai_confused(monster_id, game, objects, previous_ai, num_turns);
            let ghost after_conf = objects@;
            let o2 = &mut objects[monster_id];
            o2.ai = Some(new_ai);
            proof {
                let objs0 = old(objects)@;
                let m = objs0[monster_id as int];
                let stepped = spec_ai_step(m.ai->0);
                if num_turns >= 0 {
                    let (dx, dy) = step_taken@;
                    lemma_blocked_same(
                        m.x + dx,
                        m.y + dy,
                        old(game).map,
                        objs0,
                        mid_objs,
                    );
                    assert(pos_ok(m));
                    assert(mid_objs[monster_id as int] == (Object { ai: None, ..m }));
                    let c = mid_objs[monster_id as int];
                    assert(spec_blocked(c.x + dx, c.y + dy, old(game).map, mid_objs)
                        ==> after_conf == mid_objs);
                    assert(!spec_blocked(c.x + dx, c.y + dy, old(game).map, mid_objs)
                        ==> after_conf == mid_objs.update(
                        monster_id as int,
                        Object { x: (c.x + dx) as i32, y: (c.y + dy) as i32, ..c },
                    ));
                    assert(c.x == m.x && c.y == m.y);
                    assert((Object { x: (c.x + dx) as i32, y: (c.y + dy) as i32, ..c })
                        == (Object {
                        x: (m.x + dx) as i32,
                        y: (m.y + dy) as i32,
                        ai: None,
                        ..m
                    }));
                    if spec_blocked(m.x + dx, m.y + dy, old(game).map, objs0) {
                        assert(spec_blocked(m.x + dx, m.y + dy, old(game).map, mid_objs));
                        assert(after_conf == mid_objs);
                        assert(objects@ =~= objs0.update(
                            monster_id as int,
                            Object { ai: Some(stepped), ..m },
                        ));
                    } else {
                        assert(!spec_blocked(m.x + dx, m.y + dy, old(game).map, mid_objs));
                        assert(after_conf == mid_objs.update(
                            monster_id as int,
                            Object {
                                x: (m.x + dx) as i32,
                                y: (m.y + dy) as i32,
                                ai: None,
                                ..m
                            },
                        ));
                        assert(objects@ =~= objs0.update(
                            monster_id as int,
                            Object {
                                x: (m.x + dx) as i32,
                                y: (m.y + dy) as i32,
                                ai: Some(stepped),
                                ..m
                            },
                        ));
                    }
                } else {
                    assert(objects@ =~= objs0.update(
                        monster_id as int,
                        Object { ai: Some(stepped), ..m },
                    ));
                }
            }
        }
    }
}

} // verus!
