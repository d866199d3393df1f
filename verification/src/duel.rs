use vstd::prelude::*;
use vstd::string::*;
use crate::catalog::count_text;
use crate::dice::roll_die;
use crate::orb::decimal;
use crate::protocol::text;

verus! {

/// The multiplier of a d20 throw in a one-on-one fight, in hundredths: as
/// for the damage of the arena, but a value outside 1..=20 reverses the
/// blow (-100).
pub open spec fn action_percent(d20: int) -> int {
    if d20 == 1 {
        0
    } else if 2 <= d20 <= 6 {
        20
    } else if 7 <= d20 <= 9 {
        75
    } else if 10 <= d20 <= 13 {
        100
    } else if 14 <= d20 <= 16 {
        150
    } else if 17 <= d20 <= 19 {
        200
    } else if d20 == 20 {
        300
    } else {
        -100
    }
}

/// The blow of `roll` points scaled by the throw `d20`, rounded toward zero.
pub open spec fn action_value(d20: int, roll: int) -> int {
    let p = roll * action_percent(d20);
    if p >= 0 {
        p / 100
    } else {
        -((-p) / 100)
    }
}

/// The blow of a one-on-one fight for a roll of `roll` points, rounded
/// down: a throw of 1 misses, 2 to 6 deal a fifth of the roll, 7 to 9 three
/// quarters, 10 to 13 the roll, 14 to 16 one and a half times the roll, 17
/// to 19 twice the roll and 20 three times the roll; any other value turns
/// the whole roll back.
pub proof fn lemma_action_value_table(d20: int, roll: int)
    requires
        roll >= 0,
    ensures
        d20 == 1 ==> action_value(d20, roll) == 0,
        2 <= d20 <= 6 ==> action_value(d20, roll) == roll / 5,
        7 <= d20 <= 9 ==> action_value(d20, roll) == (3 * roll) / 4,
        10 <= d20 <= 13 ==> action_value(d20, roll) == roll,
        14 <= d20 <= 16 ==> action_value(d20, roll) == (3 * roll) / 2,
        17 <= d20 <= 19 ==> action_value(d20, roll) == 2 * roll,
        d20 == 20 ==> action_value(d20, roll) == 3 * roll,
        d20 < 1 || d20 > 20 ==> action_value(d20, roll) == -roll,
{
    assert((roll * 20) / 100 == roll / 5) by (nonlinear_arith)
        requires roll >= 0;
    assert((roll * 75) / 100 == (3 * roll) / 4) by (nonlinear_arith)
        requires roll >= 0;
    assert((roll * 100) / 100 == roll) by (nonlinear_arith)
        requires roll >= 0;
    assert((roll * 150) / 100 == (3 * roll) / 2) by (nonlinear_arith)
        requires roll >= 0;
    assert((roll * 200) / 100 == 2 * roll) by (nonlinear_arith)
        requires roll >= 0;
    assert((roll * 300) / 100 == 3 * roll) by (nonlinear_arith)
        requires roll >= 0;
    assert(-((roll * 100) / 100) == -roll) by (nonlinear_arith)
        requires roll >= 0;
    assert(roll * 0 == 0);
}

/// The multiplier of a d20 throw in a one-on-one fight, in hundredths.
pub fn d20_action_percent(d20: i32) -> (p: i32)
    ensures
        p == action_percent(d20 as int),
{
    if d20 == 1 {
        0
    } else if 2 <= d20 && d20 <= 6 {
        20
    } else if 7 <= d20 && d20 <= 9 {
        75
    } else if 10 <= d20 && d20 <= 13 {
        100
    } else if 14 <= d20 && d20 <= 16 {
        150
    } else if 17 <= d20 && d20 <= 19 {
        200
    } else if d20 == 20 {
        300
    } else {
        -100
    }
}

/// The blow of `roll` points scaled by the throw `d20`.
pub fn action_damage(d20: i32, roll: i32) -> (d: i32)
    requires
        0 <= roll <= i32::MAX / 3,
    ensures
        d == action_value(d20 as int, roll as int),
        -roll <= d <= 3 * roll,
{
    let p = d20_action_percent(d20);
    assert(-100 * roll <= roll * p <= 300 * roll) by (nonlinear_arith)
        requires
            0 <= roll,
            -100 <= p <= 300;
    let prod: i64 = (roll as i64) * (p as i64);
    assert(-100 * roll <= prod <= 300 * roll) by (nonlinear_arith)
        requires
            prod == roll * p,
            0 <= roll,
            -100 <= p <= 300;
    if prod >= 0 {
        (prod / 100) as i32
    } else {
        -((-prod) / 100) as i32
    }
}

/// What the hero and the monster send each other: the sender's life, the
/// damage of its blow, a message, and whether the sender has fallen.
pub struct GamePacket {
    pub life: i32,
    pub damage: i32,
    pub message: String,
    pub is_dead: bool,
}

/// The hero of a one-on-one fight: its life, the most it can have, and the
/// potions left.
pub struct HeroDuel {
    pub life: i32,
    pub max_life: i32,
    pub potions: u32,
}

/// The monster of a one-on-one fight: its life and the most it can have.
pub struct MonsterDuel {
    pub life: i32,
    pub max_life: i32,
}

/// The hero drinks a potion when below a third of its life with potions
/// left.
pub open spec fn wants_potion(h: HeroDuel) -> bool {
    h.life < h.max_life / 3 && h.potions > 0
}

impl HeroDuel {
    /// Life never above the maximum, and a positive maximum.
    pub open spec fn wf(&self) -> bool {
        0 < self.max_life && self.life <= self.max_life
    }

    /// A hero at full life with three potions.
    pub fn new(max_life: i32) -> (h: HeroDuel)
        requires
            max_life > 0,
        ensures
            h.wf(),
            h.life == max_life,
            h.max_life == max_life,
            h.potions == 3,
    {
        HeroDuel { life: max_life, max_life, potions: 3 }
    }

    /// A hero whose life is drawn between 100 and 200.
    pub fn rolled() -> (h: HeroDuel)
        ensures
            h.wf(),
            100 <= h.max_life <= 200,
            h.life == h.max_life,
            h.potions == 3,
    {
        let max_life = 99 + roll_die(101);
        HeroDuel::new(max_life)
    }

    /// The hero's turn once the dice are thrown (`d20`, and `d8_sum` for two
    /// d8): below a third of its life with a potion left, it drinks one and
    /// heals 50 without passing its maximum; otherwise it strikes.
    pub fn turn_with(&mut self, d20: i32, d8_sum: i32) -> (p: GamePacket)
        requires
            old(self).wf(),
            old(self).life > 0,
            0 <= d8_sum <= 16,
        ensures
            final(self).wf(),
            final(self).max_life == old(self).max_life,
            !p.is_dead,
            wants_potion(*old(self)) ==> {
                let healed = if old(self).life + 50 < old(self).max_life { old(self).life + 50 } else { old(self).max_life as int };
                &&& final(self).potions == old(self).potions - 1
                &&& final(self).life == healed
                &&& p.life == healed
                &&& p.damage == 0
                &&& p.message@ == "El héroe usó una poción. HP actual: "@ + decimal(healed as nat)
            },
            !wants_potion(*old(self)) ==> {
                &&& *final(self) == *old(self)
                &&& p.life == old(self).life
                &&& p.damage == action_value(d20 as int, d8_sum as int)
                &&& p.message@ == "¡El héroe ataca con fuerza!"@
            },
    {
        if self.life < self.max_life / 3 && self.potions > 0 {
            self.potions = self.potions - 1;
            self.life = if self.life + 50 < self.max_life { self.life + 50 } else { self.max_life };
            let message = count_text("El héroe usó una poción. HP actual: ", self.life as usize, "");
            proof {
                reveal_strlit("");
                assert(message@ =~= "El héroe usó una poción. HP actual: "@ + decimal(self.life as nat));
            }
            GamePacket { life: self.life, damage: 0, message, is_dead: false }
        } else {
            let damage = action_damage(d20, d8_sum);
            GamePacket { life: self.life, damage, message: text("¡El héroe ataca con fuerza!"), is_dead: false }
        }
    }

    /// The hero's turn: a d20 and two d8 are thrown when it strikes.
    pub fn turn(&mut self) -> (p: GamePacket)
        requires
            old(self).wf(),
            old(self).life > 0,
        ensures
            final(self).wf(),
            final(self).max_life == old(self).max_life,
            !p.is_dead,
            wants_potion(*old(self)) ==> {
                let healed = if old(self).life + 50 < old(self).max_life { old(self).life + 50 } else { old(self).max_life as int };
                &&& final(self).potions == old(self).potions - 1
                &&& final(self).life == healed
                &&& p.life == healed
                &&& p.damage == 0
                &&& p.message@ == "El héroe usó una poción. HP actual: "@ + decimal(healed as nat)
            },
            !wants_potion(*old(self)) ==> {
                &&& *final(self) == *old(self)
                &&& p.life == old(self).life
                &&& p.message@ == "¡El héroe ataca con fuerza!"@
                &&& exists|d20: int, a: int, b: int|
                    1 <= d20 <= 20 && 1 <= a <= 8 && 1 <= b <= 8 && p.damage == #[trigger] action_value(d20, a + b)
            },
    {
        if self.life < self.max_life / 3 && self.potions > 0 {
            self.turn_with(1, 0)
        } else {
            let d20 = roll_die(20);
            let a = roll_die(8);
            let b = roll_die(8);
            let p = self.turn_with(d20, a + b);
            assert(p.damage == action_value(d20 as int, a + b));
            p
        }
    }
}

/// How a fight goes on for the hero after the monster's packet.
pub enum HeroOutcome {
    /// The monster has fallen.
    Victory,
    /// The blow killed the hero, which sends this last packet.
    Fallen { death: GamePacket },
    /// The hero took the blow and fights on.
    Wounded,
}

/// How a fight goes on for the monster after the hero's packet.
pub enum MonsterOutcome {
    /// The hero has fallen.
    HeroFell,
    /// The blow killed the monster, which sends this last packet.
    Defeated { death: GamePacket },
    /// The monster took the blow and strikes back with this packet.
    CounterAttack { packet: GamePacket },
}

impl HeroDuel {
    /// The hero reads the monster's packet: a fallen monster ends the fight;
    /// otherwise the hero takes the blow and falls when its life is gone.
    pub fn on_packet(&mut self, incoming: &GamePacket) -> (o: HeroOutcome)
        requires
            old(self).wf(),
            !incoming.is_dead ==> i32::MIN <= old(self).life - incoming.damage <= i32::MAX,
        ensures
            incoming.is_dead ==> o is Victory && *final(self) == *old(self),
            !incoming.is_dead ==> {
                &&& final(self).life == old(self).life - incoming.damage
                &&& final(self).max_life == old(self).max_life
                &&& final(self).potions == old(self).potions
                &&& (final(self).life <= 0 ==> (o matches HeroOutcome::Fallen { death } && death.life == 0
                    && death.damage == 0 && death.message@ == "Muerto"@ && death.is_dead))
                &&& (final(self).life > 0 ==> o is Wounded)
            },
    {
        if incoming.is_dead {
            return HeroOutcome::Victory;
        }
        self.life = self.life - incoming.damage;
        if self.life <= 0 {
            HeroOutcome::Fallen { death: GamePacket { life: 0, damage: 0, message: text("Muerto"), is_dead: true } }
        } else {
            HeroOutcome::Wounded
        }
    }
}

impl MonsterDuel {
    /// A monster at full life.
    pub fn new(max_life: i32) -> (m: MonsterDuel)
        ensures
            m.life == max_life,
            m.max_life == max_life,
    {
        MonsterDuel { life: max_life, max_life }
    }

    /// A monster whose life is drawn between 400 and 500.
    pub fn rolled() -> (m: MonsterDuel)
        ensures
            400 <= m.max_life <= 500,
            m.life == m.max_life,
    {
        let max_life = 399 + roll_die(101);
        MonsterDuel::new(max_life)
    }

    /// The monster reads the hero's packet once its dice are thrown (`roll`
    /// points and the throw `d20`): a fallen hero ends the fight; otherwise
    /// the monster takes the blow, and falls when its life is gone or
    /// strikes back.
    pub fn on_packet_with(&mut self, incoming: &GamePacket, roll: i32, d20: i32) -> (o: MonsterOutcome)
        requires
            !incoming.is_dead ==> i32::MIN <= old(self).life - incoming.damage <= i32::MAX,
            0 <= roll <= i32::MAX / 3,
        ensures
            incoming.is_dead ==> o is HeroFell && *final(self) == *old(self),
            !incoming.is_dead ==> {
                &&& final(self).life == old(self).life - incoming.damage
                &&& final(self).max_life == old(self).max_life
                &&& (final(self).life <= 0 ==> (o matches MonsterOutcome::Defeated { death } && death.life == 0
                    && death.damage == 0 && death.message@ == "Muerte"@ && death.is_dead))
                &&& (final(self).life > 0 ==> (o matches MonsterOutcome::CounterAttack { packet }
                    && packet.life == final(self).life && packet.damage == action_value(d20 as int, roll as int)
                    && packet.message@ == "¡Rugido mortal!"@ && !packet.is_dead))
            },
    {
        if incoming.is_dead {
            return MonsterOutcome::HeroFell;
        }
        self.life = self.life - incoming.damage;
        if self.life <= 0 {
            MonsterOutcome::Defeated { death: GamePacket { life: 0, damage: 0, message: text("Muerte"), is_dead: true } }
        } else {
            let damage = action_damage(d20, roll);
            MonsterOutcome::CounterAttack {
                packet: GamePacket { life: self.life, damage, message: text("¡Rugido mortal!"), is_dead: false },
            }
        }
    }

    /// The monster reads the hero's packet; its counterattack throws 10 to
    /// 24 points and a d20 below 20.
    pub fn on_packet(&mut self, incoming: &GamePacket) -> (o: MonsterOutcome)
        requires
            !incoming.is_dead ==> i32::MIN <= old(self).life - incoming.damage <= i32::MAX,
        ensures
            incoming.is_dead ==> o is HeroFell && *final(self) == *old(self),
            !incoming.is_dead ==> {
                &&& final(self).life == old(self).life - incoming.damage
                &&& final(self).max_life == old(self).max_life
                &&& (final(self).life <= 0 ==> (o matches MonsterOutcome::Defeated { death } && death.life == 0
                    && death.damage == 0 && death.message@ == "Muerte"@ && death.is_dead))
                &&& (final(self).life > 0 ==> (o matches MonsterOutcome::CounterAttack { packet }
                    && packet.life == final(self).life && !packet.is_dead && packet.message@ == "¡Rugido mortal!"@
                    && exists|roll: int, d20: int| 10 <= roll <= 24 && 1 <= d20 <= 19
                        && packet.damage == #[trigger] action_value(d20, roll)))
            },
    {
        let roll = 9 + roll_die(15);
        let d20 = roll_die(19);
        let o = self.on_packet_with(incoming, roll, d20);
        proof {
            if !incoming.is_dead && self.life > 0 {
                assert(o matches MonsterOutcome::CounterAttack { packet } && packet.damage == action_value(d20 as int, roll as int));
            }
        }
        o
    }
}

/// What the monster of the threaded dungeon does on a turn.
pub enum MonsterMove {
    /// It heals `healing` points and now has `life`.
    Heal { healing: i32, life: i32 },
    /// It strikes hero `target` (1 or 2) with `damage` points.
    Strike { target: i32, damage: i32 },
    /// It rests.
    Rest,
}

/// The monster's life after healing `healing` points: the healing is added
/// once; then the life is set to the maximum when adding the healing again
/// would reach it, and otherwise the healing is added a second time.
pub open spec fn healed_life(life: int, max_life: int, healing: int) -> int {
    let once = life + healing;
    if once + healing >= max_life {
        max_life
    } else {
        once + healing
    }
}

/// The monster's move for the drawn `action` (1 heal, 2 strike, 3 rest), the
/// throw `d20`, the sum `d6_sum` of two d6 and the hero `target` it aims at.
pub open spec fn monster_move(life: int, max_life: int, action: int, d20: int, d6_sum: int, target: int) -> MonsterMove {
    if action == 1 {
        let healing = action_value(d20, 50);
        MonsterMove::Heal { healing: healing as i32, life: healed_life(life, max_life, healing) as i32 }
    } else if action == 2 {
        MonsterMove::Strike { target: target as i32, damage: action_value(d20, d6_sum) as i32 }
    } else {
        MonsterMove::Rest
    }
}

/// The monster's turn once its dice are thrown, as in [`monster_move`].
pub fn monster_turn_with(life: i32, max_life: i32, action: i32, d20: i32, d6_sum: i32, target: i32) -> (m: MonsterMove)
    requires
        1 <= action <= 3,
        0 <= d6_sum <= 12,
        i32::MIN <= life + 2 * action_value(d20 as int, 50) <= i32::MAX,
    ensures
        m == monster_move(life as int, max_life as int, action as int, d20 as int, d6_sum as int, target as int),
{
    if action == 1 {
        let healing = action_damage(d20, 50);
        let once = life + healing;
        let now = if once + healing >= max_life { max_life } else { once + healing };
        MonsterMove::Heal { healing, life: now }
    } else if action == 2 {
        MonsterMove::Strike { target, damage: action_damage(d20, d6_sum) }
    } else {
        MonsterMove::Rest
    }
}

/// The monster's turn: it draws its action among three, a d20, two d6 and
/// which of the two heroes it aims at.
pub fn monster_turn(life: i32, max_life: i32) -> (m: MonsterMove)
    requires
        i32::MIN + 100 <= life <= i32::MAX - 300,
    ensures
        exists|action: int, d20: int, d6_sum: int, target: int|
            1 <= action <= 3 && 1 <= d20 <= 20 && 2 <= d6_sum <= 12 && 1 <= target <= 2
            && m == #[trigger] monster_move(life as int, max_life as int, action, d20, d6_sum, target),
{
    let action = roll_die(3);
    let d20 = roll_die(20);
    let d6_sum = roll_die(6) + roll_die(6);
    let target = roll_die(2);
    let m = monster_turn_with(life, max_life, action, d20, d6_sum, target);
    assert(m == monster_move(life as int, max_life as int, action as int, d20 as int, d6_sum as int, target as int));
    m
}

} // verus!
