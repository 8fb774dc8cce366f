//! Xp thresholds and level-ups.

use vstd::prelude::*;
use vstd::string::StringExecFns;
use crate::{LEVEL_UP_BASE, LEVEL_UP_FACTOR};
use crate::color::yellow;
use crate::game::{Messages, msgs_extended};
use crate::object::{Object, Fighter, obj_wf, STAT_CAP, HP_CAP};

verus! {

/// The three stat upgrades a level-up offers.
#[derive(Clone, Copy, Debug, PartialEq, Eq, Structural)]
pub enum StatChoice {
    Constitution,
    Strength,
    Agility,
}

/// The xp threshold to go from `level` to the next one.
pub fn level_up_xp(level: i32) -> (t: i32)
    requires
        0 <= level <= 1_000_000,
    ensures
        t == LEVEL_UP_BASE + level * LEVEL_UP_FACTOR,
{
    LEVEL_UP_BASE + level * LEVEL_UP_FACTOR
}

/// Whether the player's accumulated xp meets the threshold for its level.
pub fn needs_level_up(player: &Object) -> (b: bool)
    requires
        0 <= player.level <= 1_000_000,
    ensures
        b == (player.fighter is Some && player.fighter->0.xp >= LEVEL_UP_BASE + player.level
            * LEVEL_UP_FACTOR),
{
    let threshold = level_up_xp(player.level);
    match &player.fighter {
        Some(f) => f.xp >= threshold,
        None => false,
    }
}

/// The fighter after the chosen upgrade is applied to its base stat.
pub open spec fn upgraded_fighter(f: Fighter, choice: StatChoice, threshold: int) -> Fighter {
    match choice {
        StatChoice::Constitution => Fighter {
            xp: (f.xp - threshold) as i32,
            base_max_hp: (f.base_max_hp + 20) as i32,
            hp: (f.hp + 20) as i32,
            ..f
        },
        StatChoice::Strength => Fighter {
            xp: (f.xp - threshold) as i32,
            base_power: (f.base_power + 1) as i32,
            ..f
        },
        StatChoice::Agility => Fighter {
            xp: (f.xp - threshold) as i32,
            base_defense: (f.base_defense + 1) as i32,
            ..f
        },
    }
}

/// Commit a level-up the player has earned and confirmed: raise the level,
/// subtract the threshold xp (not all xp), and apply the chosen bonus to
/// the base stat.
pub fn level_up(player: &mut Object, choice: StatChoice, messages: &mut Messages)
    requires
        obj_wf(*old(player)),
        0 <= old(player).level <= 1_000_000,
        old(player).fighter is Some,
        old(player).fighter->0.xp >= LEVEL_UP_BASE + old(player).level * LEVEL_UP_FACTOR,
        choice is Constitution ==> old(player).fighter->0.base_max_hp + 20 <= STAT_CAP && old(
            player,
        ).fighter->0.hp + 20 <= HP_CAP,
        choice is Strength ==> old(player).fighter->0.base_power + 1 <= STAT_CAP,
        choice is Agility ==> old(player).fighter->0.base_defense + 1 <= STAT_CAP,
    ensures
        *final(player) == (Object {
            level: (old(player).level + 1) as i32,
            fighter: Some(
                upgraded_fighter(
                    old(player).fighter->0,
                    choice,
                    LEVEL_UP_BASE + old(player).level * LEVEL_UP_FACTOR,
                ),
            ),
            ..*old(player)
        }),
        obj_wf(*final(player)),
        msgs_extended(*old(messages), *final(messages)),
{
    let threshold = level_up_xp(player.level);
    player.level += 1;
    let mut text = String::from_str("Your battle skills grow stronger! You reached level ");
    text.append(player.level.to_string().as_str());
    text.append("!");
    messages.add(text, yellow());
    if let Some(fighter) = player.fighter {
        let f = Fighter { xp: fighter.xp - threshold, ..fighter };
        match choice {
            StatChoice::Constitution => {
                player.fighter = Some(
                    Fighter { base_max_hp: f.base_max_hp + 20, hp: f.hp + 20, ..f },
                );
            },
            StatChoice::Strength => {
                player.fighter = Some(Fighter { base_power: f.base_power + 1, ..f });
            },
            StatChoice::Agility => {
                player.fighter = Some(Fighter { base_defense: f.base_defense + 1, ..f });
            },
        }
    }
}

} // verus!
