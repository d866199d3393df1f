use dungeon::dice::{calc_damage, d20_multiplier_percent, damage_for, roll_die};
use dungeon::duel::{
    action_damage, d20_action_percent, monster_turn, monster_turn_with, GamePacket, HeroDuel, HeroOutcome, MonsterDuel, MonsterMove,
    MonsterOutcome,
};

#[test]
fn multiplier_table_exact() {
    let expected = [(1, 0), (2, 20), (6, 20), (7, 75), (9, 75), (10, 100), (13, 100), (14, 150), (16, 150), (17, 200), (19, 200), (20, 300)];
    for (d20, p) in expected {
        assert_eq!(d20_multiplier_percent(d20), p);
    }
    assert_eq!(d20_multiplier_percent(0), 0);
    assert_eq!(d20_multiplier_percent(21), 0);
    assert_eq!(d20_multiplier_percent(-5), 0);
}

#[test]
fn damage_rounds_toward_zero() {
    assert_eq!(damage_for(20, 16), 48);
    assert_eq!(damage_for(7, 10), 7);
    assert_eq!(damage_for(2, 9), 1);
    assert_eq!(damage_for(1, 16), 0);
    assert_eq!(damage_for(14, 5), 7);
    assert_eq!(damage_for(10, 12), 12);
}

#[test]
fn damage_matches_float_multiplier() {
    let mult = |d: i32| -> f32 {
        match d {
            1 => 0.0,
            2..=6 => 0.2,
            7..=9 => 0.75,
            10..=13 => 1.0,
            14..=16 => 1.5,
            17..=19 => 2.0,
            20 => 3.0,
            _ => 0.0,
        }
    };
    for d20 in 1..=20 {
        for roll in 0..=200 {
            assert_eq!(damage_for(d20, roll), (roll as f32 * mult(d20)) as i32);
        }
    }
}

#[test]
fn dice_stay_in_range() {
    for _ in 0..500 {
        let r = roll_die(20);
        assert!((1..=20).contains(&r));
        let d = calc_damage();
        assert!((0..=48).contains(&d));
    }
}

#[test]
fn action_percent_reverses_outside_range() {
    assert_eq!(d20_action_percent(0), -100);
    assert_eq!(d20_action_percent(21), -100);
    assert_eq!(d20_action_percent(1), 0);
    assert_eq!(d20_action_percent(20), 300);
    assert_eq!(action_damage(0, 10), -10);
    assert_eq!(action_damage(20, 10), 30);
    assert_eq!(action_damage(7, 24), 18);
    assert_eq!(action_damage(2, 24), 4);
}

#[test]
fn hero_drinks_below_a_third() {
    let mut h = HeroDuel::new(150);
    h.life = 40;
    let p = h.turn_with(20, 10);
    assert_eq!(h.life, 90);
    assert_eq!(h.potions, 2);
    assert_eq!(p.life, 90);
    assert_eq!(p.damage, 0);
    assert!(!p.is_dead);
    assert_eq!(p.message, "El héroe usó una poción. HP actual: 90");
}

#[test]
fn potion_never_passes_maximum() {
    let mut h = HeroDuel::new(60);
    h.life = 19;
    let p = h.turn_with(20, 10);
    assert_eq!(h.life, 60);
    assert_eq!(p.message, "El héroe usó una poción. HP actual: 60");
}

#[test]
fn hero_strikes_when_healthy_or_out_of_potions() {
    let mut h = HeroDuel::new(150);
    let p = h.turn_with(20, 10);
    assert_eq!(p.damage, 30);
    assert_eq!(p.life, 150);
    assert_eq!(p.message, "¡El héroe ataca con fuerza!");
    assert_eq!(h.potions, 3);
    let mut weak = HeroDuel::new(150);
    weak.life = 10;
    weak.potions = 0;
    let p = weak.turn_with(7, 8);
    assert_eq!(p.damage, 6);
    assert_eq!(weak.life, 10);
}

#[test]
fn hero_reads_monster_packets() {
    let mut h = HeroDuel::new(150);
    let dead_monster = GamePacket { life: 0, damage: 0, message: "Muerte".to_string(), is_dead: true };
    assert!(matches!(h.on_packet(&dead_monster), HeroOutcome::Victory));
    assert_eq!(h.life, 150);
    let blow = GamePacket { life: 400, damage: 10, message: "¡Rugido mortal!".to_string(), is_dead: false };
    assert!(matches!(h.on_packet(&blow), HeroOutcome::Wounded));
    assert_eq!(h.life, 140);
    let big = GamePacket { life: 400, damage: 500, message: "¡Rugido mortal!".to_string(), is_dead: false };
    match h.on_packet(&big) {
        HeroOutcome::Fallen { death } => {
            assert_eq!(death.life, 0);
            assert_eq!(death.damage, 0);
            assert_eq!(death.message, "Muerto");
            assert!(death.is_dead);
        }
        _ => panic!("the hero should fall"),
    }
    assert_eq!(h.life, -360);
}

#[test]
fn monster_reads_hero_packets() {
    let mut m = MonsterDuel::new(450);
    let hit = GamePacket { life: 100, damage: 10, message: "¡El héroe ataca con fuerza!".to_string(), is_dead: false };
    match m.on_packet_with(&hit, 10, 20) {
        MonsterOutcome::CounterAttack { packet } => {
            assert_eq!(packet.life, 440);
            assert_eq!(packet.damage, 30);
            assert_eq!(packet.message, "¡Rugido mortal!");
            assert!(!packet.is_dead);
        }
        _ => panic!("the monster should strike back"),
    }
    let fallen = GamePacket { life: 0, damage: 0, message: "Muerto".to_string(), is_dead: true };
    assert!(matches!(m.on_packet_with(&fallen, 10, 20), MonsterOutcome::HeroFell));
    assert_eq!(m.life, 440);
    let finisher = GamePacket { life: 50, damage: 440, message: String::new(), is_dead: false };
    match m.on_packet_with(&finisher, 10, 20) {
        MonsterOutcome::Defeated { death } => {
            assert_eq!(death.message, "Muerte");
            assert!(death.is_dead);
            assert_eq!(death.life, 0);
        }
        _ => panic!("the monster should fall"),
    }
}

#[test]
fn rolled_fighters_in_range() {
    for _ in 0..50 {
        let h = HeroDuel::rolled();
        assert!((100..=200).contains(&h.max_life));
        assert_eq!(h.life, h.max_life);
        assert_eq!(h.potions, 3);
        let m = MonsterDuel::rolled();
        assert!((400..=500).contains(&m.max_life));
        let mut m2 = MonsterDuel::new(500);
        let hit = GamePacket { life: 100, damage: 1, message: String::new(), is_dead: false };
        if let MonsterOutcome::CounterAttack { packet } = m2.on_packet(&hit) {
            assert!((0..=72).contains(&packet.damage));
        } else {
            panic!("the monster should strike back");
        }
    }
}

#[test]
fn threaded_monster_heals_strikes_and_rests() {
    assert!(matches!(monster_turn_with(100, 450, 1, 10, 7, 1), MonsterMove::Heal { healing: 50, life: 200 }));
    assert!(matches!(monster_turn_with(400, 450, 1, 10, 7, 1), MonsterMove::Heal { healing: 50, life: 450 }));
    assert!(matches!(monster_turn_with(100, 450, 1, 1, 7, 1), MonsterMove::Heal { healing: 0, life: 100 }));
    assert!(matches!(monster_turn_with(100, 450, 1, 8, 7, 1), MonsterMove::Heal { healing: 37, life: 174 }));
    assert!(matches!(monster_turn_with(100, 450, 2, 20, 7, 2), MonsterMove::Strike { target: 2, damage: 21 }));
    assert!(matches!(monster_turn_with(100, 450, 2, 3, 7, 1), MonsterMove::Strike { target: 1, damage: 1 }));
    assert!(matches!(monster_turn_with(100, 450, 3, 20, 7, 1), MonsterMove::Rest));
    for _ in 0..50 {
        match monster_turn(300, 450) {
            MonsterMove::Heal { healing, life } => assert!((0..=150).contains(&healing) && life <= 450 && life >= 300),
            MonsterMove::Strike { target, damage } => assert!((1..=2).contains(&target) && (0..=36).contains(&damage)),
            MonsterMove::Rest => {}
        }
    }
}

#[test]
fn hero_turn_heals_with_a_potion_or_strikes() {
    let mut h = HeroDuel::new(150);
    h.life = 40;
    let p = h.turn();
    assert_eq!(p.life, 90);
    assert_eq!(h.life, 90);
    assert_eq!(h.potions, 2);
    assert_eq!(p.damage, 0);
    assert_eq!(p.message, "El héroe usó una poción. HP actual: 90");
    let mut strong = HeroDuel::new(150);
    let q = strong.turn();
    assert_eq!(q.life, 150);
    assert_eq!(q.message, "¡El héroe ataca con fuerza!");
    assert!(q.damage >= 0 && q.damage <= 48);
}
