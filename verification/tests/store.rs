use dungeon::accounts::{LoginRequest, SignInRequest, User, UserDirectory};
use dungeon::catalog::{get_item_by_id, get_items};
use dungeon::purchases::{
    after_item, after_user, begin_purchase, complete_purchase, finish_purchase, new_purchase_id, purchase_id_from,
    CreatePurchaseRequest, ItemData, ItemFetch, PurchaseBook, PurchaseDraft, PurchaseStep, UserData, UserFetch,
};

fn login(dir: &UserDirectory, email: &str, password: &str) -> dungeon::accounts::UserReply {
    dir.login(&LoginRequest { email: email.to_string(), password: password.to_string() })
}

#[test]
fn seeded_accounts_log_in() {
    let dir = UserDirectory::seeded().expect("bcrypt hashes");
    assert_eq!(dir.len(), 2);
    let r = login(&dir, "alice@microstore.com", "password123");
    assert_eq!(r.status, 200);
    assert!(r.success);
    assert_eq!(r.message, "Login exitoso");
    let u = r.data.expect("the account");
    assert_eq!(u.name, "Alice García");
    assert_eq!(u.email, "alice@microstore.com");
    assert_eq!(u.id.len(), 36);
    let r = login(&dir, "bob@microstore.com", "password123");
    assert_eq!(r.data.expect("the account").name, "Bob Martínez");
}

#[test]
fn login_errors() {
    let dir = UserDirectory::seeded().expect("bcrypt hashes");
    let r = login(&dir, "alice@microstore.com", "password124");
    assert_eq!(r.status, 401);
    assert!(!r.success);
    assert_eq!(r.message, "Contraseña incorrecta");
    assert!(r.data.is_none());
    let r = login(&dir, "carol@microstore.com", "password123");
    assert_eq!(r.status, 404);
    assert_eq!(r.message, "Usuario no encontrado");
    assert!(r.data.is_none());
}

#[test]
fn login_with_malformed_hash_is_refused() {
    let dir = UserDirectory::from_users(vec![User {
        id: "x".to_string(),
        name: "Eve".to_string(),
        email: "eve@x".to_string(),
        password_hash: "password123".to_string(),
    }]);
    let r = login(&dir, "eve@x", "password123");
    assert_eq!(r.status, 401);
    assert_eq!(r.message, "Contraseña incorrecta");
}

#[test]
fn login_answer_cases() {
    let u = User { id: "i".to_string(), name: "N".to_string(), email: "e".to_string(), password_hash: "h".to_string() };
    let r = UserDirectory::login_answer(None, true);
    assert_eq!(r.status, 404);
    let r = UserDirectory::login_answer(Some(&u), false);
    assert_eq!(r.status, 401);
    assert_eq!(r.message, "Contraseña incorrecta");
    let r = UserDirectory::login_answer(Some(&u), true);
    assert_eq!(r.status, 200);
    let p = r.data.expect("the account");
    assert_eq!(p.id, "i");
    assert_eq!(p.name, "N");
    assert_eq!(p.email, "e");
}

#[test]
fn sign_in_then_login() {
    let mut dir = UserDirectory::seeded().expect("bcrypt hashes");
    let req = SignInRequest { name: "Carol".to_string(), email: "carol@microstore.com".to_string(), password: "s3cret".to_string() };
    let r = dir.sign_in(&req);
    assert_eq!(r.status, 201);
    assert!(r.success);
    assert_eq!(r.message, "Usuario registrado exitosamente");
    let created = r.data.expect("the new account");
    assert_eq!(created.name, "Carol");
    assert_eq!(created.email, "carol@microstore.com");
    let id: Vec<char> = created.id.chars().collect();
    assert_eq!(id.len(), 36);
    for (i, c) in id.iter().enumerate() {
        if [8, 13, 18, 23].contains(&i) {
            assert_eq!(*c, '-');
        } else {
            assert!(c.is_ascii_hexdigit() && !c.is_ascii_uppercase());
        }
    }
    assert_eq!(dir.len(), 3);
    let r = login(&dir, "carol@microstore.com", "s3cret");
    assert_eq!(r.status, 200);
    assert_eq!(r.data.expect("the account").id, created.id);
    let r = login(&dir, "carol@microstore.com", "wrong");
    assert_eq!(r.status, 401);
    let r = login(&dir, "alice@microstore.com", "password123");
    assert_eq!(r.status, 200);
    assert_eq!(r.data.expect("the account").name, "Alice García");
    let r = dir.get_by_email(&"carol@microstore.com".to_string());
    assert_eq!(r.status, 200);
    assert_eq!(r.message, "Usuario encontrado");
    assert_eq!(r.data.expect("the account").name, "Carol");
}

#[test]
fn sign_in_refuses_taken_email() {
    let mut dir = UserDirectory::seeded().expect("bcrypt hashes");
    let req = SignInRequest { name: "Alice 2".to_string(), email: "alice@microstore.com".to_string(), password: "x".to_string() };
    let r = dir.sign_in(&req);
    assert_eq!(r.status, 409);
    assert!(!r.success);
    assert_eq!(r.message, "El correo ya está registrado");
    assert!(r.data.is_none());
    assert_eq!(dir.len(), 2);
    let r = login(&dir, "alice@microstore.com", "password123");
    assert_eq!(r.data.expect("the account").name, "Alice García");
}

#[test]
fn lookup_of_unknown_email() {
    let dir = UserDirectory::seeded().expect("bcrypt hashes");
    let r = dir.get_by_email(&"nobody@x".to_string());
    assert_eq!(r.status, 404);
    assert_eq!(r.message, "Usuario no encontrado");
    assert!(r.data.is_none());
}

#[test]
fn catalogue_pages() {
    let all = get_items(None);
    assert!(all.success);
    assert_eq!(all.total, 10);
    assert_eq!(all.data.len(), 10);
    assert_eq!(all.message, "Se retornaron 10 items");
    let three = get_items(Some(3));
    assert_eq!(three.total, 3);
    assert_eq!(three.message, "Se retornaron 3 items");
    let ids: Vec<&str> = three.data.iter().map(|p| p.id.as_str()).collect();
    assert_eq!(ids, vec!["item-001", "item-002", "item-003"]);
    assert_eq!(three.data[0].price_cents, 2_499_900);
    assert_eq!(get_items(Some(100)).total, 10);
    let five = get_items(Some(5));
    assert_eq!(five.data.len(), 5);
    assert_eq!(five.data[4].id, "item-005");
    let none = get_items(Some(0));
    assert_eq!(none.total, 0);
    assert!(none.data.is_empty());
    assert_eq!(none.message, "Se retornaron 0 items");
}

#[test]
fn catalogue_lookup() {
    let r = get_item_by_id(&"item-005".to_string());
    assert_eq!(r.status, 200);
    assert!(r.success);
    assert_eq!(r.message, "Item encontrado");
    let p = r.data.expect("the product");
    assert_eq!(p.name, "Monitor UltraWide 34\"");
    assert_eq!(p.price_cents, 1_850_000);
    assert_eq!(p.stock, 8);
    assert_eq!(p.category, "Monitores");
    let r = get_item_by_id(&"item-011".to_string());
    assert_eq!(r.status, 404);
    assert!(!r.success);
    assert_eq!(r.message, "Item no encontrado");
    assert!(r.data.is_none());
}

#[test]
fn purchase_ids() {
    assert_eq!(purchase_id_from("1a2b3c4d-0000-4000-8000-000000000000"), "PUR-1A2B3C4D");
    assert_eq!(purchase_id_from("abc"), "PUR-ABC");
    assert_eq!(purchase_id_from("-x"), "PUR-");
    assert_eq!(purchase_id_from("ß-1"), "PUR-SS");
    let id = new_purchase_id();
    assert!(id.starts_with("PUR-"));
    assert_eq!(id.len(), 12);
    assert!(id[4..].chars().all(|c| c.is_ascii_digit() || ('A'..='F').contains(&c)));
}

fn request(ids: &[&str]) -> CreatePurchaseRequest {
    CreatePurchaseRequest { user_email: "alice@microstore.com".to_string(), item_ids: ids.iter().map(|s| s.to_string()).collect() }
}

fn fail_of(step: PurchaseStep) -> (u16, String) {
    match step {
        PurchaseStep::Fail { status, message } => (status, message),
        _ => panic!("the step should fail"),
    }
}

fn alice() -> UserFetch {
    UserFetch::Answered { data: Some(UserData { id: "u1".to_string(), name: "Alice García".to_string(), email: "alice@microstore.com".to_string() }) }
}

#[test]
fn purchase_needs_items() {
    let (status, message) = fail_of(begin_purchase(request(&[]), "http://users"));
    assert_eq!(status, 400);
    assert_eq!(message, "Debe incluir al menos un item");
    match begin_purchase(request(&["item-001"]), "http://users") {
        PurchaseStep::FetchUser { url, request } => {
            assert_eq!(url, "http://users/users/email/alice@microstore.com");
            assert_eq!(request.item_ids.len(), 1);
        }
        _ => panic!("the buyer is looked up first"),
    }
}

#[test]
fn purchase_user_failures() {
    let (s, m) = fail_of(after_user(request(&["a"]), UserFetch::Unreachable { error: "connection refused".to_string() }, "http://items"));
    assert_eq!(s, 502);
    assert_eq!(m, "No se pudo contactar al servicio de usuarios: connection refused");
    let (s, m) = fail_of(after_user(request(&["a"]), UserFetch::Refused { status: 404 }, "http://items"));
    assert_eq!(s, 404);
    assert_eq!(m, "Usuario no encontrado en el sistema");
    let (s, m) = fail_of(after_user(request(&["a"]), UserFetch::Refused { status: 500 }, "http://items"));
    assert_eq!(s, 502);
    assert_eq!(m, "El servicio de usuarios respondió con error 500");
    let (s, m) = fail_of(after_user(request(&["a"]), UserFetch::Refused { status: 503 }, "http://items"));
    assert_eq!(s, 502);
    assert_eq!(m, "El servicio de usuarios respondió con error 503");
    let (s, m) = fail_of(after_user(request(&["a"]), UserFetch::Unreadable, "http://items"));
    assert_eq!(s, 500);
    assert_eq!(m, "Error al procesar respuesta del servicio de usuarios");
    let (s, m) = fail_of(after_user(request(&["a"]), UserFetch::Answered { data: None }, "http://items"));
    assert_eq!(s, 404);
    assert_eq!(m, "Usuario no encontrado");
}

fn item(id: &str, price_cents: u64) -> ItemFetch {
    ItemFetch::Answered { data: Some(ItemData { id: id.to_string(), name: format!("name of {}", id), price_cents }) }
}

#[test]
fn purchase_runs_through_items() {
    let step = after_user(request(&["item-001", "ghost", "item-002"]), alice(), "http://items");
    let draft = match step {
        PurchaseStep::FetchItem { url, draft } => {
            assert_eq!(url, "http://items/items/item-001");
            assert_eq!(draft.user_name, "Alice García");
            assert_eq!(draft.next, 0);
            draft
        }
        _ => panic!("the first item is asked for"),
    };
    let draft = match after_item(draft, item("item-001", 2_499_900), "http://items") {
        PurchaseStep::FetchItem { url, draft } => {
            assert_eq!(url, "http://items/items/ghost");
            draft
        }
        _ => panic!("the second item is asked for"),
    };
    let draft = match after_item(draft, ItemFetch::Answered { data: None }, "http://items") {
        PurchaseStep::FetchItem { url, draft } => {
            assert_eq!(url, "http://items/items/item-002");
            assert_eq!(draft.details.len(), 1);
            draft
        }
        _ => panic!("the third item is asked for"),
    };
    let draft = match after_item(draft, item("item-002", 349_900), "http://items") {
        PurchaseStep::Complete { draft } => draft,
        _ => panic!("the purchase is complete"),
    };
    assert_eq!(draft.details.len(), 2);
    assert_eq!(draft.total_cents, 2_849_800);
    let p = finish_purchase(draft, "PUR-ABCD1234".to_string(), "2024-01-01T00:00:00+00:00".to_string());
    assert_eq!(p.id, "PUR-ABCD1234");
    assert_eq!(p.user_email, "alice@microstore.com");
    assert_eq!(p.item_ids, vec!["item-001".to_string(), "ghost".to_string(), "item-002".to_string()]);
    assert_eq!(p.item_details[1].id, "item-002");
    assert_eq!(p.total_cents, 2_849_800);
    assert_eq!(p.status, "completed");
    assert_eq!(p.created_at, "2024-01-01T00:00:00+00:00");
}

fn one_item_draft() -> PurchaseDraft {
    match after_user(request(&["item-009"]), alice(), "http://items") {
        PurchaseStep::FetchItem { draft, .. } => draft,
        _ => panic!("the item is asked for"),
    }
}

#[test]
fn purchase_item_failures() {
    let (s, m) = fail_of(after_item(one_item_draft(), ItemFetch::Unreachable { error: "timeout".to_string() }, "http://items"));
    assert_eq!(s, 502);
    assert_eq!(m, "No se pudo contactar al servicio de items: timeout");
    let (s, m) = fail_of(after_item(one_item_draft(), ItemFetch::Refused { status: 404 }, "http://items"));
    assert_eq!(s, 404);
    assert_eq!(m, "Item 'item-009' no encontrado");
    let (s, m) = fail_of(after_item(one_item_draft(), ItemFetch::Refused { status: 500 }, "http://items"));
    assert_eq!(s, 502);
    assert_eq!(m, "El servicio de items respondió con error 500");
    let (s, m) = fail_of(after_item(one_item_draft(), ItemFetch::Unreadable, "http://items"));
    assert_eq!(s, 500);
    assert_eq!(m, "Error al procesar respuesta del servicio de items");
}

#[test]
fn purchase_book_records_and_finds() {
    let mut book = PurchaseBook::new();
    let empty = book.get_purchases();
    assert!(empty.success);
    assert_eq!(empty.message, "0 compras encontradas");
    let draft = match after_item(one_item_draft(), item("item-009", 89_900), "http://items") {
        PurchaseStep::Complete { draft } => draft,
        _ => panic!("the purchase is complete"),
    };
    let p = complete_purchase(draft);
    assert!(p.id.starts_with("PUR-"));
    assert_eq!(p.id.len(), 12);
    assert_eq!(p.total_cents, 89_900);
    assert!(p.created_at.ends_with("+00:00"));
    assert_eq!(&p.created_at[10..11], "T");
    let id = p.id.clone();
    let r = book.record(p);
    assert_eq!(r.status, 201);
    assert!(r.success);
    assert_eq!(r.message, "Compra registrada exitosamente");
    assert_eq!(r.data.expect("the purchase").id, id);
    let list = book.get_purchases();
    assert_eq!(list.message, "1 compras encontradas");
    assert_eq!(list.data.len(), 1);
    let found = book.get_purchase_by_id(&id);
    assert_eq!(found.status, 200);
    assert_eq!(found.message, "Compra encontrada");
    assert_eq!(found.data.expect("the purchase").total_cents, 89_900);
    let missing = book.get_purchase_by_id(&"PUR-00000000".to_string());
    assert_eq!(missing.status, 404);
    assert!(!missing.success);
    assert_eq!(missing.message, "Compra no encontrada");
    let again = found_again(&book, &id);
    assert!(again);
    let twin = finish_purchase(one_item_draft_done(), id.clone(), "2024-01-01T00:00:00+00:00".to_string());
    let r2 = book.record(twin);
    assert_eq!(r2.status, 409);
    assert!(!r2.success);
    assert_eq!(r2.message, "ID de compra duplicado");
    assert!(r2.data.is_none());
    assert_eq!(book.get_purchases().data.len(), 1);
}

fn found_again(book: &PurchaseBook, id: &String) -> bool {
    book.has_id(id)
}

fn one_item_draft_done() -> PurchaseDraft {
    match after_item(one_item_draft(), item("item-009", 89_900), "http://items") {
        PurchaseStep::Complete { draft } => draft,
        _ => panic!("the purchase is complete"),
    }
}
