//! The mutable record for every actor, item and feature in the world, and
//! the combat rules that act on it.

use vstd::prelude::*;
use vstd::string::StringExecFns;
use crate::color::{Color, dark_red, light_green, light_yellow, orange, red, white};
use crate::game::{Game, Messages, msgs_extended, same_but_messages};
use crate::tile::interior;

verus! {

/// Upper bound kept on every base combat stat.
pub const STAT_CAP: i32 = 10_000_000;

/// Upper bound kept on current hit points.
pub const HP_CAP: i32 = 16_000_000;

/// Upper bound kept on accumulated experience.
pub const XP_CAP: i32 = 1_000_000_000;

/// Upper bound kept on the magnitude of an equipment bonus.
pub const BONUS_CAP: i32 = 10_000;

/// Which of the two fixed death behaviors an entity carries.
#[derive(Clone, Copy, Debug, PartialEq, Eq, Structural)]
pub enum DeathCallback {
    Player,
    Monster,
}

/// Combat-related properties (monster, player, NPC).
#[derive(Clone, Copy, Debug, PartialEq, Eq, Structural)]
pub struct Fighter {
    pub base_max_hp: i32,
    pub hp: i32,
    pub base_defense: i32,
    pub base_power: i32,
    pub xp: i32,
    pub on_death: DeathCallback,
}

/// Per-entity behavior state machine. `Confused` wraps the variant it was
/// entered from and reverts to it when its turns run out.
#[derive(Debug, PartialEq, Eq)]
pub enum Ai {
    Basic,
    Confused { previous_ai: Box<Ai>, num_turns: i32 },
}

/// Consumable/equippable identity; behavior lives in the item dispatcher.
#[derive(Clone, Copy, Debug, PartialEq, Eq, Structural)]
pub enum Item {
    Heal,
    Lightning,
    Confuse,
    Fireball,
    Sword,
    Shield,
}

/// An equipment attachment point; at most one equipped item per slot.
#[derive(Clone, Copy, Debug, PartialEq, Eq, Structural)]
pub enum Slot {
    LeftHand,
    RightHand,
    Head,
}

impl Slot {
    /// Human-readable slot name.
    pub fn describe(&self) -> (s: String)
        ensures
            self is LeftHand ==> s@ == "left hand"@,
            self is RightHand ==> s@ == "right hand"@,
            self is Head ==> s@ == "head"@,
    {
        match self {
            Slot::LeftHand => String::from_str("left hand"),
            Slot::RightHand => String::from_str("right hand"),
            Slot::Head => String::from_str("head"),
        }
    }
}

/// An object that can be equipped, yielding bonuses.
#[derive(Clone, Copy, Debug, PartialEq, Eq, Structural)]
pub struct Equipment {
    pub slot: Slot,
    pub equipped: bool,
    pub power_bonus: i32,
    pub defense_bonus: i32,
    pub max_hp_bonus: i32,
}

/// A generic world entity: the player, a monster, an item on the floor,
/// the stairs. Its glyph and color are rendering hints only.
pub struct Object {
    pub x: i32,
    pub y: i32,
    pub glyph: char,
    pub color: Color,
    pub name: String,
    pub blocks: bool,
    pub alive: bool,
    pub always_visible: bool,
    pub level: i32,
    pub fighter: Option<Fighter>,
    pub ai: Option<Ai>,
    pub item: Option<Item>,
    pub equipment: Option<Equipment>,
}

/// Stat bounds every fighter keeps, so that combat arithmetic fits in i32.
pub open spec fn fighter_wf(f: Fighter) -> bool {
    &&& 0 <= f.hp <= HP_CAP
    &&& 0 <= f.base_max_hp <= STAT_CAP
    &&& 0 <= f.base_defense <= STAT_CAP
    &&& 0 <= f.base_power <= STAT_CAP
    &&& 0 <= f.xp <= XP_CAP
}

/// Bonus bounds every piece of equipment keeps.
pub open spec fn equipment_wf(e: Equipment) -> bool {
    &&& 0 <= e.power_bonus <= BONUS_CAP
    &&& 0 <= e.defense_bonus <= BONUS_CAP
    &&& 0 <= e.max_hp_bonus <= BONUS_CAP
}

/// A well-formed entity: its fighter and equipment stats are in bounds.
pub open spec fn obj_wf(o: Object) -> bool {
    &&& (o.fighter is Some ==> fighter_wf(o.fighter->0))
    &&& (o.equipment is Some ==> equipment_wf(o.equipment->0))
}

/// The entity stands strictly inside the map, off the solid border.
pub open spec fn pos_ok(o: Object) -> bool {
    interior(o.x as int, o.y as int)
}

/// Every entity of the collection is well-formed and in the map interior.
pub open spec fn objs_wf(objs: Seq<Object>) -> bool {
    forall|i: int| 0 <= i < objs.len() ==> obj_wf(#[trigger] objs[i]) && pos_ok(objs[i])
}

/// World items carry their equipment unequipped; only inventory entries may
/// be equipped.
pub open spec fn world_unequipped(objs: Seq<Object>) -> bool {
    forall|i: int|
        0 <= i < objs.len() && (#[trigger] objs[i]).equipment is Some ==> !objs[i].equipment->0.equipped
}

/// Squared Euclidean distance between two grid positions.
pub open spec fn spec_dist2(ax: int, ay: int, bx: int, by: int) -> int {
    (ax - bx) * (ax - bx) + (ay - by) * (ay - by)
}

/// The entity is named "player": effective stats then include the
/// inventory's equipped bonuses.
pub open spec fn is_player_name(o: Object) -> bool {
    o.name@ == "player"@
}

impl Object {
    pub fn new(x: i32, y: i32, glyph: char, name: &str, color: Color, blocks: bool) -> (o: Object)
        ensures
            o.x == x,
            o.y == y,
            o.glyph == glyph,
            o.name@ == name@,
            o.color == color,
            o.blocks == blocks,
            !o.alive,
            !o.always_visible,
            o.level == 1,
            o.fighter is None,
            o.ai is None,
            o.item is None,
            o.equipment is None,
    {
        Object {
            x,
            y,
            glyph,
            color,
            name: name.to_owned(),
            blocks,
            alive: false,
            always_visible: false,
            level: 1,
            fighter: None,
            ai: None,
            item: None,
            equipment: None,
        }
    }

    pub fn pos(&self) -> (p: (i32, i32))
        ensures
            p == (self.x, self.y),
    {
        (self.x, self.y)
    }

    pub fn set_pos(&mut self, x: i32, y: i32)
        ensures
            *final(self) == (Object { x, y, ..*old(self) }),
    {
        self.x = x;
        self.y = y;
    }

    /// Squared distance to another object. Comparisons of Euclidean
    /// distances with nonnegative bounds reduce exactly to comparisons of
    /// squared distances.
    pub fn distance2_to(&self, other: &Object) -> (d: i32)
        requires
            -1000 <= self.x <= 1000,
            -1000 <= self.y <= 1000,
            -1000 <= other.x <= 1000,
            -1000 <= other.y <= 1000,
        ensures
            d == spec_dist2(self.x as int, self.y as int, other.x as int, other.y as int),
    {
        self.distance2(other.x, other.y)
    }

    /// Squared distance to a tile position.
    pub fn distance2(&self, x: i32, y: i32) -> (d: i32)
        requires
            -1000 <= self.x <= 1000,
            -1000 <= self.y <= 1000,
            -1000 <= x <= 1000,
            -1000 <= y <= 1000,
        ensures
            d == spec_dist2(self.x as int, self.y as int, x as int, y as int),
    {
        let dx = self.x - x;
        let dy = self.y - y;
        proof {
            assert(0 <= dx * dx <= 4_000_000 && 0 <= dy * dy <= 4_000_000) by (nonlinear_arith)
                requires
                    -2000 <= dx <= 2000,
                    -2000 <= dy <= 2000,
            ;
        }
        dx * dx + dy * dy
    }

    /// Equip the object: sets the equipped flag and logs a message. Logs
    /// an error message if the object is no equipment.
    pub fn equip(&mut self, messages: &mut Messages)
        ensures
            old(self).equipment is Some ==> *final(self) == (Object {
                equipment: Some(Equipment { equipped: true, ..old(self).equipment->0 }),
                ..*old(self)
            }),
            old(self).equipment is None ==> *final(self) == *old(self),
            msgs_extended(*old(messages), *final(messages)),
    {
        if self.equipment.is_none() {
            let mut text = String::from_str("Can't equip ");
            text.append(self.name.as_str());
            text.append(" because it's not an Equipment.");
            messages.add(text, red());
            return ;
        }
        let equipment = self.equipment.unwrap();
        if !equipment.equipped {
            self.equipment = Some(Equipment { equipped: true, ..equipment });
            let mut text = String::from_str("Equipped ");
            text.append(self.name.as_str());
            text.append(" on ");
            text.append(equipment.slot.describe().as_str());
            text.append(".");
            messages.add(text, light_green());
        }
    }

    /// Dequip the object: clears the equipped flag and logs a message. Logs
    /// an error message if the object is no equipment.
    pub fn dequip(&mut self, messages: &mut Messages)
        ensures
            old(self).equipment is Some ==> *final(self) == (Object {
                equipment: Some(Equipment { equipped: false, ..old(self).equipment->0 }),
                ..*old(self)
            }),
            old(self).equipment is None ==> *final(self) == *old(self),
            msgs_extended(*old(messages), *final(messages)),
    {
        if self.equipment.is_none() {
            let mut text = String::from_str("Can't dequip ");
            text.append(self.name.as_str());
            text.append(" because it's not an Equipment.");
            messages.add(text, red());
            return ;
        }
        let equipment = self.equipment.unwrap();
        if equipment.equipped {
            self.equipment = Some(Equipment { equipped: false, ..equipment });
            let mut text = String::from_str("Dequipped ");
            text.append(self.name.as_str());
            text.append(" from ");
            text.append(equipment.slot.describe().as_str());
            text.append(".");
            messages.add(text, light_yellow());
        }
    }
}

/// Power bonus an inventory entry contributes while equipped.
pub open spec fn power_bonus_of(o: Object) -> int {
    if o.equipment is Some && o.equipment->0.equipped {
        o.equipment->0.power_bonus as int
    } else {
        0
    }
}

/// Defense bonus an inventory entry contributes while equipped.
pub open spec fn defense_bonus_of(o: Object) -> int {
    if o.equipment is Some && o.equipment->0.equipped {
        o.equipment->0.defense_bonus as int
    } else {
        0
    }
}

/// Max-hp bonus an inventory entry contributes while equipped.
pub open spec fn max_hp_bonus_of(o: Object) -> int {
    if o.equipment is Some && o.equipment->0.equipped {
        o.equipment->0.max_hp_bonus as int
    } else {
        0
    }
}

pub open spec fn sum_power_bonus(inv: Seq<Object>) -> int
    decreases inv.len(),
{
    if inv.len() == 0 {
        0
    } else {
        power_bonus_of(inv.first()) + sum_power_bonus(inv.drop_first())
    }
}

pub open spec fn sum_defense_bonus(inv: Seq<Object>) -> int
    decreases inv.len(),
{
    if inv.len() == 0 {
        0
    } else {
        defense_bonus_of(inv.first()) + sum_defense_bonus(inv.drop_first())
    }
}

pub open spec fn sum_max_hp_bonus(inv: Seq<Object>) -> int
    decreases inv.len(),
{
    if inv.len() == 0 {
        0
    } else {
        max_hp_bonus_of(inv.first()) + sum_max_hp_bonus(inv.drop_first())
    }
}

/// Every inventory entry is well-formed and the capacity bound holds.
pub open spec fn inv_ok(inv: Seq<Object>) -> bool {
    &&& inv.len() <= crate::MAX_INVENTORY as int
    &&& forall|i: int| 0 <= i < inv.len() ==> obj_wf(#[trigger] inv[i])
}

pub proof fn lemma_sum_bonus_bounds(inv: Seq<Object>)
    requires
        forall|i: int| 0 <= i < inv.len() ==> obj_wf(#[trigger] inv[i]),
    ensures
        0 <= sum_power_bonus(inv) <= BONUS_CAP * inv.len(),
        0 <= sum_defense_bonus(inv) <= BONUS_CAP * inv.len(),
        0 <= sum_max_hp_bonus(inv) <= BONUS_CAP * inv.len(),
    decreases inv.len(),
{
    if inv.len() > 0 {
        assert(obj_wf(inv[0]));
        lemma_sum_bonus_bounds(inv.drop_first());
    }
}

/// Base power: the fighter stat, or 0 without a fighter.
pub open spec fn spec_base_power(o: Object) -> int {
    if o.fighter is Some {
        o.fighter->0.base_power as int
    } else {
        0
    }
}

pub open spec fn spec_base_defense(o: Object) -> int {
    if o.fighter is Some {
        o.fighter->0.base_defense as int
    } else {
        0
    }
}

pub open spec fn spec_base_max_hp(o: Object) -> int {
    if o.fighter is Some {
        o.fighter->0.base_max_hp as int
    } else {
        0
    }
}

/// Effective power: base plus, for the player, the equipped bonuses of the
/// inventory. Monsters carry no equipment in this design.
pub open spec fn spec_power(o: Object, inv: Seq<Object>) -> int {
    spec_base_power(o) + if is_player_name(o) {
        sum_power_bonus(inv)
    } else {
        0
    }
}

pub open spec fn spec_defense(o: Object, inv: Seq<Object>) -> int {
    spec_base_defense(o) + if is_player_name(o) {
        sum_defense_bonus(inv)
    } else {
        0
    }
}

pub open spec fn spec_max_hp(o: Object, inv: Seq<Object>) -> int {
    spec_base_max_hp(o) + if is_player_name(o) {
        sum_max_hp_bonus(inv)
    } else {
        0
    }
}

/// Hit points after applying `damage` with a floor of 0; non-positive
/// damage has no effect.
pub open spec fn clamped_hp(hp: int, damage: int) -> int {
    if damage > 0 {
        if hp - damage > 0 {
            hp - damage
        } else {
            0
        }
    } else {
        hp
    }
}

/// The damage kills: the entity has a fighter, the clamped hp reaches 0,
/// and it is still alive (a dead entity cannot die again).
pub open spec fn spec_dies(o: Object, damage: int) -> bool {
    o.fighter is Some && clamped_hp(o.fighter->0.hp as int, damage) <= 0 && o.alive
}

/// The xp reward take_damage yields: the victim's xp exactly on the
/// damage that kills it, and never again afterwards.
pub open spec fn spec_reward(o: Object, damage: int) -> Option<i32> {
    if spec_dies(o, damage) {
        Some(o.fighter->0.xp)
    } else {
        None
    }
}

/// The object after damage when it survives (or is already dead): only the
/// hp changes.
pub open spec fn spec_survivor(o: Object, damage: int) -> Object {
    if o.fighter is Some {
        Object {
            fighter: Some(
                Fighter { hp: clamped_hp(o.fighter->0.hp as int, damage) as i32, ..o.fighter->0 },
            ),
            ..o
        }
    } else {
        o
    }
}

/// The player after its death transition: marked dead and drawn as a
/// corpse, but fighter and name kept.
pub open spec fn spec_dead_player(o: Object, damage: int) -> Object {
    Object {
        alive: false,
        glyph: '%',
        color: Color { r: 191, g: 0, b: 0 },
        fighter: Some(
            Fighter { hp: clamped_hp(o.fighter->0.hp as int, damage) as i32, ..o.fighter->0 },
        ),
        ..o
    }
}

/// The player entity after taking damage: dead-player transition when the
/// damage kills, otherwise just the hp change. Deterministic because the
/// player's death keeps its fighter and name.
pub open spec fn spec_after_damage_player(o: Object, damage: int) -> Object {
    if spec_dies(o, damage) {
        spec_dead_player(o, damage)
    } else {
        spec_survivor(o, damage)
    }
}

/// `c` is the corpse the monster death transition leaves behind for `o`:
/// permanently inert, non-blocking, renamed to its remains.
pub open spec fn is_monster_corpse_of(c: Object, o: Object) -> bool {
    &&& c.x == o.x
    &&& c.y == o.y
    &&& c.glyph == '%'
    &&& c.color == (Color { r: 191, g: 0, b: 0 })
    &&& c.name@ == "remains of "@ + o.name@
    &&& !c.blocks
    &&& !c.alive
    &&& c.always_visible == o.always_visible
    &&& c.level == o.level
    &&& c.fighter is None
    &&& c.ai is None
    &&& c.item == o.item
    &&& c.equipment == o.equipment
}

/// What take_damage leaves of the object, as one relation.
pub open spec fn spec_damaged(o: Object, damage: int, c: Object) -> bool {
    if spec_dies(o, damage) {
        if o.fighter->0.on_death is Player {
            c == spec_dead_player(o, damage)
        } else {
            is_monster_corpse_of(c, o)
        }
    } else {
        c == spec_survivor(o, damage)
    }
}

/// Hit points after damage are never negative: whatever take_damage
/// leaves behind keeps its hp at or above the floor of 0.
pub proof fn lemma_hp_floor(o: Object, damage: int, c: Object)
    requires
        obj_wf(o),
        spec_damaged(o, damage, c),
    ensures
        c.fighter is Some ==> c.fighter->0.hp >= 0,
{
}

/// Death grants its xp reward exactly once: whatever killed the entity,
/// any further damage to what is left yields no reward.
pub proof fn lemma_death_reward_once(o: Object, c: Object, d1: int, d2: int)
    requires
        spec_reward(o, d1) is Some,
        spec_damaged(o, d1, c),
    ensures
        spec_reward(c, d2) is None,
{
}

/// The game ended: transform the player into a corpse.
pub fn player_death(player: &mut Object, game: &mut Game)
    ensures
        *final(player) == (Object {
            glyph: '%',
            color: Color { r: 191, g: 0, b: 0 },
            ..*old(player)
        }),
        same_but_messages(*old(game), *final(game)),
        final(game).messages.messages@.len() == old(game).messages.messages@.len() + 1,
{
    game.messages.add(String::from_str("You died!"), red());
    player.glyph = '%';
    player.color = dark_red();
}

/// Transform the monster into a nasty corpse: it does not block, cannot be
/// attacked and does not move.
pub fn monster_death(monster: &mut Object, game: &mut Game)
    requires
        old(monster).fighter is Some,
    ensures
        is_monster_corpse_of(*final(monster), *old(monster)),
        same_but_messages(*old(game), *final(game)),
        final(game).messages.messages@.len() == old(game).messages.messages@.len() + 2,
{
    let mut text = self_name_prefix(&monster.name);
    text.append(" is dead! You gain ");
    text.append(monster.fighter.unwrap().xp.to_string().as_str());
    text.append(" experience points.");
    game.messages.add(text, orange());
    monster.glyph = '%';
    monster.color = dark_red();
    monster.blocks = false;
    monster.fighter = None;
    monster.ai = None;
    let mut name = String::from_str("remains of ");
    name.append(monster.name.as_str());
    monster.name = name;
    game.messages.add(monster.name.clone(), orange());
    monster.alive = false;
}

/// A fresh String holding the object name, to start a message with.
fn self_name_prefix(name: &String) -> (s: String)
    ensures
        s@ == name@,
{
    let mut s = String::new();
    s.append(name.as_str());
    s
}

impl DeathCallback {
    /// Dispatch to the fixed death behavior this tag selects.
    pub fn callback(self, object: &mut Object, game: &mut Game)
        requires
            old(object).fighter is Some,
        ensures
            self is Player ==> *final(object) == (Object {
                glyph: '%',
                color: Color { r: 191, g: 0, b: 0 },
                ..*old(object)
            }),
            self is Monster ==> is_monster_corpse_of(*final(object), *old(object)),
            same_but_messages(*old(game), *final(game)),
    {
        match self {
            DeathCallback::Player => player_death(object, game),
            DeathCallback::Monster => monster_death(object, game),
        }
    }
}

impl Object {
    /// Sum of the power bonuses over the equipped inventory entries.
    fn equipped_power_bonus(inv: &Vec<Object>) -> (s: i32)
        requires
            inv_ok(inv@),
        ensures
            s == sum_power_bonus(inv@),
    {
        proof {
            assert(inv@.skip(0) == inv@);
        }
        let mut s: i32 = 0;
        let mut i: usize = 0;
        while i < inv.len()
            invariant
                i <= inv.len(),
                inv_ok(inv@),
                0 <= s <= BONUS_CAP * (i as int),
                sum_power_bonus(inv@) == s + sum_power_bonus(inv@.skip(i as int)),
            decreases inv.len() - i,
        {
            proof {
                assert(inv@.skip(i as int).drop_first() =~= inv@.skip(i as int + 1));
                assert(inv@.skip(i as int).first() == inv@[i as int]);
                assert(obj_wf(inv@[i as int]));
            }
            match &inv[i].equipment {
                Some(e) => {
                    if e.equipped {
                        s += e.power_bonus;
                    }
                },
                None => {},
            }
            i += 1;
        }
        s
    }

    /// Sum of the defense bonuses over the equipped inventory entries.
    fn equipped_defense_bonus(inv: &Vec<Object>) -> (s: i32)
        requires
            inv_ok(inv@),
        ensures
            s == sum_defense_bonus(inv@),
    {
        proof {
            assert(inv@.skip(0) == inv@);
        }
        let mut s: i32 = 0;
        let mut i: usize = 0;
        while i < inv.len()
            invariant
                i <= inv.len(),
                inv_ok(inv@),
                0 <= s <= BONUS_CAP * (i as int),
                sum_defense_bonus(inv@) == s + sum_defense_bonus(inv@.skip(i as int)),
            decreases inv.len() - i,
        {
            proof {
                assert(inv@.skip(i as int).drop_first() =~= inv@.skip(i as int + 1));
                assert(inv@.skip(i as int).first() == inv@[i as int]);
                assert(obj_wf(inv@[i as int]));
            }
            match &inv[i].equipment {
                Some(e) => {
                    if e.equipped {
                        s += e.defense_bonus;
                    }
                },
                None => {},
            }
            i += 1;
        }
        s
    }

    /// Sum of the max-hp bonuses over the equipped inventory entries.
    fn equipped_max_hp_bonus(inv: &Vec<Object>) -> (s: i32)
        requires
            inv_ok(inv@),
        ensures
            s == sum_max_hp_bonus(inv@),
    {
        proof {
            assert(inv@.skip(0) == inv@);
        }
        let mut s: i32 = 0;
        let mut i: usize = 0;
        while i < inv.len()
            invariant
                i <= inv.len(),
                inv_ok(inv@),
                0 <= s <= BONUS_CAP * (i as int),
                sum_max_hp_bonus(inv@) == s + sum_max_hp_bonus(inv@.skip(i as int)),
            decreases inv.len() - i,
        {
            proof {
                assert(inv@.skip(i as int).drop_first() =~= inv@.skip(i as int + 1));
                assert(inv@.skip(i as int).first() == inv@[i as int]);
                assert(obj_wf(inv@[i as int]));
            }
            match &inv[i].equipment {
                Some(e) => {
                    if e.equipped {
                        s += e.max_hp_bonus;
                    }
                },
                None => {},
            }
            i += 1;
        }
        s
    }

    /// Whether this entity is the player, whose effective stats include the
    /// inventory's equipped bonuses.
    fn is_player(&self) -> (b: bool)
        ensures
            b == is_player_name(*self),
    {
        let p = String::from_str("player");
        self.name == p
    }

    /// Effective attack power: base plus equipped bonuses.
    pub fn power(&self, game: &Game) -> (p: i32)
        requires
            obj_wf(*self),
            inv_ok(game.inventory@),
        ensures
            p == spec_power(*self, game.inventory@),
    {
        proof {
            lemma_sum_bonus_bounds(game.inventory@);
        }
        let base = match &self.fighter {
            Some(f) => f.base_power,
            None => 0,
        };
        if self.is_player() {
            base + Self::equipped_power_bonus(&game.inventory)
        } else {
            base
        }
    }

    /// Effective defense: base plus equipped bonuses.
    pub fn defense(&self, game: &Game) -> (d: i32)
        requires
            obj_wf(*self),
            inv_ok(game.inventory@),
        ensures
            d == spec_defense(*self, game.inventory@),
    {
        proof {
            lemma_sum_bonus_bounds(game.inventory@);
        }
        let base = match &self.fighter {
            Some(f) => f.base_defense,
            None => 0,
        };
        if self.is_player() {
            base + Self::equipped_defense_bonus(&game.inventory)
        } else {
            base
        }
    }

    /// Effective maximum hit points: base plus equipped bonuses.
    pub fn max_hp(&self, game: &Game) -> (m: i32)
        requires
            obj_wf(*self),
            inv_ok(game.inventory@),
        ensures
            m == spec_max_hp(*self, game.inventory@),
    {
        proof {
            lemma_sum_bonus_bounds(game.inventory@);
        }
        let base = match &self.fighter {
            Some(f) => f.base_max_hp,
            None => 0,
        };
        if self.is_player() {
            base + Self::equipped_max_hp_bonus(&game.inventory)
        } else {
            base
        }
    }

    /// Heal by the given amount, without going over the effective maximum.
    pub fn heal(&mut self, amount: i32, game: &Game)
        requires
            obj_wf(*old(self)),
            inv_ok(game.inventory@),
            0 <= amount <= XP_CAP,
        ensures
            old(self).fighter is Some ==> *final(self) == (Object {
                fighter: Some(
                    Fighter {
                        hp: (if old(self).fighter->0.hp + amount > spec_max_hp(
                            *old(self),
                            game.inventory@,
                        ) {
                            spec_max_hp(*old(self), game.inventory@)
                        } else {
                            old(self).fighter->0.hp + amount
                        }) as i32,
                        ..old(self).fighter->0
                    },
                ),
                ..*old(self)
            }),
            old(self).fighter is None ==> *final(self) == *old(self),
            obj_wf(*final(self)),
    {
        proof {
            lemma_sum_bonus_bounds(game.inventory@);
        }
        let max_hp = self.max_hp(game);
        if let Some(fighter) = self.fighter {
            let mut hp = fighter.hp + amount;
            if hp > max_hp {
                hp = max_hp;
            }
            self.fighter = Some(Fighter { hp, ..fighter });
        }
    }

    /// Apply damage with a floor of 0 hit points. On the damage that kills,
    /// run the death transition and return the xp reward, exactly once:
    /// already-dead entities return no reward.
    pub fn take_damage(&mut self, damage: i32, game: &mut Game) -> (r: Option<i32>)
        requires
            obj_wf(*old(self)),
        ensures
            r == spec_reward(*old(self), damage as int),
            spec_damaged(*old(self), damage as int, *final(self)),
            same_but_messages(*old(game), *final(game)),
            obj_wf(*final(self)),
    {
        // apply damage if possible
        if let Some(fighter) = self.fighter {
            if damage > 0 {
                let hp = if fighter.hp - damage > 0 {
                    fighter.hp - damage
                } else {
                    0
                };
                self.fighter = Some(Fighter { hp, ..fighter });
            }
        }
        // check for death and call the death function, once
        if let Some(fighter) = self.fighter {
            if fighter.hp <= 0 && self.alive {
                self.alive = false;
                fighter.on_death.callback(self, game);
                return Some(fighter.xp);
            }
        }
        None
    }

    /// Attack the target: damage is effective power minus effective
    /// defense, floored at 0; a kill's xp reward accrues to the attacker.
    pub fn attack(&mut self, target: &mut Object, game: &mut Game)
        requires
            obj_wf(*old(self)),
            obj_wf(*old(target)),
            inv_ok(game.inventory@),
            old(self).fighter is Some,
            old(target).fighter is Some ==> old(self).fighter->0.xp + old(
                target,
            ).fighter->0.xp <= XP_CAP,
        ensures
            ({
                let damage = spec_power(*old(self), old(game).inventory@) - spec_defense(
                    *old(target),
                    old(game).inventory@,
                );
                let reward = spec_reward(*old(target), damage);
                &&& (damage > 0 ==> spec_damaged(*old(target), damage, *final(target))
                    && *final(self) == (Object {
                    fighter: Some(
                        Fighter {
                            xp: (old(self).fighter->0.xp + (if reward is Some {
                                reward->0 as int
                            } else {
                                0
                            })) as i32,
                            ..old(self).fighter->0
                        },
                    ),
                    ..*old(self)
                }))
                &&& (damage <= 0 ==> *final(target) == *old(target) && *final(self) == *old(self))
            }),
            same_but_messages(*old(game), *final(game)),
            obj_wf(*final(self)),
            obj_wf(*final(target)),
    {
        proof {
            lemma_sum_bonus_bounds(game.inventory@);
        }
        let damage = self.power(game) - target.defense(game);
        if damage > 0 {
            let mut text = self_name_prefix(&self.name);
            text.append(" attacks ");
            text.append(target.name.as_str());
            text.append(" for ");
            text.append(damage.to_string().as_str());
            text.append(" hit points.");
            game.messages.add(text, white());
            if let Some(xp) = target.take_damage(damage, game) {
                if let Some(fighter) = self.fighter {
                    self.fighter = Some(Fighter { xp: fighter.xp + xp, ..fighter });
                }
            }
        } else {
            let mut text = self_name_prefix(&self.name);
            text.append(" attacks ");
            text.append(target.name.as_str());
            text.append(" but it has no effect!");
            game.messages.add(text, white());
        }
    }
}

/// A squared distance is never negative.
pub proof fn lemma_dist2_nonneg(ax: int, ay: int, bx: int, by: int)
    ensures
        spec_dist2(ax, ay, bx, by) >= 0,
{
    assert((ax - bx) * (ax - bx) >= 0 && (ay - by) * (ay - by) >= 0) by (nonlinear_arith);
}

} // verus!
