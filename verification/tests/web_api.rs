use dungeon::api::{
    is_listed, petition_get_item, petition_post, petition_post_checked, petition_update_level, Credentials, PetitionGetItem,
    PetitionPost, PetitionUpdateLevel, Sessions,
};
use dungeon::loot::{get_items_pool, pick_item, roll_item, Item};

fn creds() -> Credentials {
    Credentials {
        users: "admin, player1".to_string(),
        password: Some("secreto".to_string()),
        api_key: Some("llave-123".to_string()),
    }
}

#[test]
fn user_list_is_split_on_commas_and_trimmed() {
    assert!(is_listed("admin,player1", "player1"));
    assert!(is_listed("admin, player1", "player1"));
    assert!(is_listed("  bob  ", "bob"));
    assert!(is_listed(" admin ,x", "admin"));
    assert!(!is_listed("admin,player1", "player"));
    assert!(!is_listed("admin,player1", "admin,player1"));
    assert!(is_listed("", ""));
    assert!(is_listed("a,,b", ""));
    assert!(!is_listed("a,b", ""));
    assert!(is_listed("admin,\u{3000}player1\u{a0}\t", "player1"));
    assert!(!is_listed("admin,\u{200b}player1", "player1"));
}

#[test]
fn login_refuses_unknown_user() {
    let mut s = Sessions::new();
    let (status, r) = petition_post(&creds(), &PetitionPost { username: "mallory".to_string(), password: "secreto".to_string() }, &mut s);
    assert_eq!(status, 401);
    assert!(!r.success);
    assert_eq!(r.api_key, "");
    assert_eq!(r.message, "Usuario no registrado");
    assert_eq!(s.level(&"llave-123".to_string()), None);
}

#[test]
fn login_refuses_wrong_password() {
    let mut s = Sessions::new();
    let (status, r) = petition_post(&creds(), &PetitionPost { username: "admin".to_string(), password: "otra".to_string() }, &mut s);
    assert_eq!(status, 401);
    assert!(!r.success);
    assert_eq!(r.message, "Contraseña inválida");
    assert_eq!(s.level(&"llave-123".to_string()), None);
}

#[test]
fn login_opens_session_at_level_one() {
    let mut s = Sessions::new();
    let (status, r) = petition_post(&creds(), &PetitionPost { username: "player1".to_string(), password: "secreto".to_string() }, &mut s);
    assert_eq!(status, 200);
    assert!(r.success);
    assert_eq!(r.api_key, "llave-123");
    assert_eq!(r.message, "Autenticado correctamente");
    assert_eq!(s.level(&"llave-123".to_string()), Some(1));
}

#[test]
fn login_keeps_reached_level() {
    let mut s = Sessions::new();
    let login = PetitionPost { username: "admin".to_string(), password: "secreto".to_string() };
    petition_post(&creds(), &login, &mut s);
    let (status, r) = petition_update_level(&creds(), &PetitionUpdateLevel { api_key: "llave-123".to_string(), level: 4 }, &mut s);
    assert_eq!(status, 200);
    assert_eq!(r.current_level, 4);
    petition_post(&creds(), &login, &mut s);
    assert_eq!(s.level(&"llave-123".to_string()), Some(4));
}

#[test]
fn level_report_needs_the_key() {
    let mut s = Sessions::new();
    let (status, r) = petition_update_level(&creds(), &PetitionUpdateLevel { api_key: "otra".to_string(), level: 4 }, &mut s);
    assert_eq!(status, 401);
    assert!(!r.success);
    assert_eq!(r.message, "API key inválida");
    assert_eq!(r.current_level, 0);
    assert_eq!(s.level(&"otra".to_string()), None);
    let (status, r) = petition_update_level(&creds(), &PetitionUpdateLevel { api_key: "llave-123".to_string(), level: 7 }, &mut s);
    assert_eq!(status, 200);
    assert!(r.success);
    assert_eq!(r.message, "Nivel actualizado");
    assert_eq!(r.current_level, 7);
    assert_eq!(s.level(&"llave-123".to_string()), Some(7));
}

#[test]
fn item_request_needs_the_key() {
    let mut s = Sessions::new();
    let (status, r) = petition_get_item(&creds(), &PetitionGetItem { api_key: "nope".to_string(), level: 3 }, &mut s);
    assert_eq!(status, 401);
    assert!(r.item.is_none());
    assert!(!r.success);
    assert_eq!(r.message, "API key inválida");
}

#[test]
fn item_request_moves_session_and_draws_for_level() {
    let mut s = Sessions::new();
    let (status, r) = petition_get_item(&creds(), &PetitionGetItem { api_key: "llave-123".to_string(), level: 0 }, &mut s);
    assert_eq!(status, 200);
    assert!(r.success);
    assert_eq!(r.message, "Item generado");
    assert!(r.item.is_none());
    assert_eq!(s.level(&"llave-123".to_string()), Some(0));
    for _ in 0..50 {
        let (_, r) = petition_get_item(&creds(), &PetitionGetItem { api_key: "llave-123".to_string(), level: 2 }, &mut s);
        let level = match r.item.expect("level 2 has items") {
            Item::Weapon(w) => w.level_required,
            Item::Potion(p) => p.level_required,
            Item::Magic(m) => m.level_required,
        };
        assert!(level <= 2);
    }
    assert_eq!(s.level(&"llave-123".to_string()), Some(2));
}

#[test]
fn pool_sizes_follow_weights() {
    assert_eq!(get_items_pool(0).len(), 0);
    assert_eq!(get_items_pool(1).len(), 14);
    assert_eq!(get_items_pool(2).len(), 31);
    assert_eq!(get_items_pool(3).len(), 42);
    assert_eq!(get_items_pool(4).len(), 53);
    assert_eq!(get_items_pool(5).len(), 61);
    assert_eq!(get_items_pool(99).len(), 61);
}

#[test]
fn pool_order_weapons_then_potions_then_magic() {
    match pick_item(1, 0) {
        Some(Item::Weapon(w)) => assert_eq!(w.name, "Espada Oxidada"),
        _ => panic!("a weapon comes first"),
    }
    match pick_item(1, 2) {
        Some(Item::Weapon(w)) => assert_eq!(w.name, "Espada Oxidada"),
        _ => panic!("each weapon three times"),
    }
    match pick_item(1, 3) {
        Some(Item::Weapon(w)) => assert_eq!(w.name, "Daga Astillada"),
        _ => panic!("then the second weapon"),
    }
    match pick_item(1, 9) {
        Some(Item::Potion(p)) => {
            assert_eq!(p.name, "Poción Pequeña");
            assert_eq!(p.tier, 1);
        }
        _ => panic!("potions after weapons"),
    }
    match pick_item(1, 13) {
        Some(Item::Magic(m)) => {
            assert_eq!(m.name, "Destello Arcano");
            assert_eq!(m.element, "arcane");
        }
        _ => panic!("spells last"),
    }
    match pick_item(1, 14) {
        Some(Item::Weapon(w)) => assert_eq!(w.name, "Espada Oxidada"),
        _ => panic!("the pick wraps around"),
    }
    assert!(pick_item(0, 5).is_none());
    assert!(roll_item(0).is_none());
    assert!(roll_item(5).is_some());
}

fn required(item: &Item) -> u32 {
    match item {
        Item::Weapon(w) => w.level_required,
        Item::Potion(p) => p.level_required,
        Item::Magic(m) => m.level_required,
    }
}

fn name(item: &Item) -> String {
    match item {
        Item::Weapon(w) => w.name.clone(),
        Item::Potion(p) => p.name.clone(),
        Item::Magic(m) => m.name.clone(),
    }
}

#[test]
fn pool_items_never_above_level() {
    for level in 0..=6u32 {
        for item in get_items_pool(level).iter() {
            assert!(required(item) <= level);
        }
    }
}

#[test]
fn pool_grows_with_level() {
    let low: Vec<String> = get_items_pool(2).iter().map(name).collect();
    let high: Vec<String> = get_items_pool(4).iter().map(name).collect();
    for n in low.iter() {
        assert!(high.contains(n));
    }
    assert!(high.contains(&"Poción Mayor".to_string()));
    assert!(!low.contains(&"Poción Mayor".to_string()));
}

#[test]
fn pool_keeps_counts_and_stops_growing_at_five() {
    let count = |pool: &Vec<String>, n: &String| pool.iter().filter(|x| *x == n).count();
    let low: Vec<String> = get_items_pool(1).iter().map(name).collect();
    let high: Vec<String> = get_items_pool(3).iter().map(name).collect();
    for n in low.iter() {
        assert!(count(&low, n) <= count(&high, n));
    }
    let five: Vec<String> = get_items_pool(5).iter().map(name).collect();
    let nine: Vec<String> = get_items_pool(9).iter().map(name).collect();
    assert_eq!(five, nine);
    assert_eq!(five.len(), 13 * 3 + 7 * 2 + 8);
}

#[test]
fn login_without_configuration() {
    let mut s = Sessions::new();
    let no_password = Credentials { users: "admin".to_string(), password: None, api_key: Some("k".to_string()) };
    let login = PetitionPost { username: "admin".to_string(), password: "x".to_string() };
    assert!(petition_post_checked(&no_password, &login, &mut s).is_none());
    let no_key = Credentials { users: "admin".to_string(), password: Some("x".to_string()), api_key: None };
    assert!(petition_post_checked(&no_key, &login, &mut s).is_none());
    assert_eq!(s.level(&"k".to_string()), None);
    let stranger = PetitionPost { username: "eve".to_string(), password: "x".to_string() };
    let (status, r) = petition_post_checked(&no_password, &stranger, &mut s).expect("an answer");
    assert_eq!(status, 401);
    assert_eq!(r.message, "Usuario no registrado");
    let wrong = PetitionPost { username: "admin".to_string(), password: "y".to_string() };
    let (status, r) = petition_post_checked(&no_key, &wrong, &mut s).expect("an answer");
    assert_eq!(status, 401);
    assert_eq!(r.message, "Contraseña inválida");
    let full = creds();
    let ok = PetitionPost { username: "admin".to_string(), password: "secreto".to_string() };
    let (status, r) = petition_post_checked(&full, &ok, &mut s).expect("an answer");
    assert_eq!(status, 200);
    assert_eq!(r.api_key, "llave-123");
}
