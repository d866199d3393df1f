use dungeon::arena::ServerState as Arena;
use dungeon::coordinator::{compute_zones, heartbeat, link_lost, CoordState, Departure, Heartbeat};
use dungeon::hero::{
    broker_answer, dir_to_coords, Arrival, dir_to_coords_bounded, label_of, new_session, AttackStub, BrokerAnswer, Command, Phase,
    Variant,
};
use dungeon::orb::{dispatch_outcome, BrokerStep, CellReg, OrbReply, OrbRequest, OrbToCoord, OrbZone, Registry, SkelReply, SkelRequest};
use dungeon::protocol::{CellState, ClientPacket, ServerPacket};
use dungeon::zone_server::{cross_zone_request, Outcome as ZoneOutcome, ServerState as ZoneServer};
use dungeon::zones::{ClientInfo, ClientTransfer, CoordToServer, ServerToCoord, Zone, ZoneSnapshot};

fn zone(r0: usize, r1: usize) -> Zone {
    Zone { row_start: r0, row_end: r1, col_start: 0, col_end: 9 }
}

#[test]
fn zones_split_rows_evenly() {
    assert!(compute_zones(0).is_empty());
    assert!(compute_zones(1) == vec![zone(0, 9)]);
    assert!(compute_zones(3) == vec![zone(0, 3), zone(4, 6), zone(7, 9)]);
    assert!(compute_zones(4) == vec![zone(0, 2), zone(3, 5), zone(6, 7), zone(8, 9)]);
    let ten = compute_zones(10);
    assert_eq!(ten.len(), 10);
    for (i, z) in ten.iter().enumerate() {
        assert!(*z == zone(i, i));
    }
}

#[test]
fn zone_cells_and_membership() {
    let z = zone(4, 6);
    assert_eq!(z.cells(), 30);
    assert!(z.contains(4, 0));
    assert!(z.contains(6, 9));
    assert!(!z.contains(3, 5));
    assert!(!z.contains(7, 5));
    let o = OrbZone { row_start: 0, row_end: 4, col_start: 0, col_end: 9 };
    assert!(o.contains(4, 9));
    assert!(!o.contains(5, 0));
}

#[test]
fn coordinator_rebalances_and_hands_over() {
    let mut c = CoordState::new();
    let a = c.add_server();
    let b = c.add_server();
    assert_eq!(a, 0);
    assert_eq!(b, 1);
    assert_eq!(c.server_count(), 2);
    c.register(a, "127.0.0.1:7001".to_string(), "127.0.0.1:9001".to_string());
    let orders = c.rebalance();
    assert_eq!(orders.len(), 2);
    let zones = compute_zones(2);
    for (i, (id, z)) in orders.iter().enumerate() {
        assert!(*z == zones[i]);
        assert!(c.server_zone(*id) == Some(*z));
    }
    match c.handle_disconnect(a) {
        Departure::Handover { target, zone: z, clients } => {
            assert_eq!(target, b);
            assert!(Some(z) == orders.iter().find(|o| o.0 == a).map(|o| o.1));
            assert!(clients.is_empty());
        }
        _ => panic!("the other server takes over"),
    }
    assert_eq!(c.server_count(), 1);
    assert!(matches!(c.handle_disconnect(7), Departure::Unknown));
    assert!(matches!(c.handle_disconnect(b), Departure::NoneLeft));
}

#[test]
fn coordinator_steps_write_the_log() {
    let mut c = CoordState::new();
    let a = c.add_server();
    let b = c.add_server();
    let t0 = c.tick();
    c.register(a, "127.0.0.1:7001".to_string(), "127.0.0.1:9001".to_string());
    let _ = c.rebalance();
    assert_eq!(c.tick(), t0 + 2);
    let _ = c.handle_disconnect(a);
    let _ = c.handle_disconnect(7);
    let _ = c.handle_disconnect(b);
    assert_eq!(c.tick(), t0 + 7);
    let expected: Vec<String> = vec![
        "🟢 Servidor 1 → TCP:127.0.0.1:7001 WS:127.0.0.1:9001",
        "🔄 Rebalanceo: 2 servidores",
        "🔴 Servidor 1 desconectado",
        "↔️  Zona 1 → Servidor 2",
        "🔴 Servidor 8 desconectado",
        "🔴 Servidor 2 desconectado",
        "⚠️  Sin servidores",
    ]
    .into_iter()
    .map(String::from)
    .collect();
    assert_eq!(c.events(), &expected);
    let mut empty = CoordState::new();
    assert!(empty.rebalance().is_empty());
    assert!(empty.events().is_empty());
    assert_eq!(empty.tick(), 0);
}

#[test]
fn broker_files_and_forgets_cells() {
    let mut reg = Registry::new();
    assert!(reg.lookup(2, 3).is_none());
    reg.update_cells(1, vec![CellReg { row: 2, col: 3, occupant_id: Some(7) }]);
    assert!(reg.lookup(2, 3).is_none());
    reg.register_zone(1, "127.0.0.1:9101".to_string(), OrbZone { row_start: 0, row_end: 4, col_start: 0, col_end: 9 });
    reg.update_cells(
        1,
        vec![CellReg { row: 2, col: 3, occupant_id: Some(7) }, CellReg { row: 4, col: 4, occupant_id: None }],
    );
    let ior = reg.lookup(2, 3).expect("the published cell");
    assert_eq!(ior.zone_server_id, 1);
    assert_eq!(ior.skeleton_addr, "127.0.0.1:9101");
    assert_eq!(ior.occupant_id, Some(7));
    assert!(reg.lookup(4, 4).is_none());
    reg.update_cells(1, vec![CellReg { row: 2, col: 3, occupant_id: None }]);
    assert!(reg.lookup(2, 3).is_none());
    reg.register_zone(2, "127.0.0.1:9102".to_string(), OrbZone { row_start: 5, row_end: 9, col_start: 0, col_end: 9 });
    reg.update_cells(2, vec![CellReg { row: 6, col: 1, occupant_id: Some(8) }]);
    reg.update_cells(1, vec![CellReg { row: 0, col: 0, occupant_id: Some(3) }]);
    assert_eq!(reg.lookup(6, 1).expect("kept").zone_server_id, 2);
    assert_eq!(reg.lookup(0, 0).expect("filed").occupant_id, Some(3));
}

#[test]
fn arena_moves_attacks_and_heals() {
    let mut s = Arena::new(3);
    assert!(matches!(s.seat(1, Some((0, 0)), 150), ServerPacket::Welcome { client_id: 1, row: 0, col: 0 }));
    assert!(matches!(s.seat(2, Some((0, 1)), 120), ServerPacket::Welcome { client_id: 2, row: 0, col: 1 }));
    match s.move_client(1, 0, 1) {
        ServerPacket::MoveDenied { reason } => assert_eq!(reason, "Casilla no disponible"),
        _ => panic!("the cell is taken"),
    }
    match s.move_client(1, 3, 0) {
        ServerPacket::MoveDenied { reason } => assert_eq!(reason, "Casilla no disponible"),
        _ => panic!("the cell is off the board"),
    }
    assert!(matches!(s.move_client(1, 1, 0), ServerPacket::MoveOk { row: 1, col: 0 }));
    assert_eq!(s.position(1), Some((1, 0)));
    assert_eq!(s.occupant(0, 0), None);
    match s.attack(2, 1, 0, 10) {
        Some((1, ServerPacket::TakeDamage { damage: 10, from_id: 2 })) => {}
        _ => panic!("the hero on the cell is hit"),
    }
    assert!(s.attack(2, 2, 2, 10).is_none());
    assert!(!s.take_damage(1, 10, 2));
    assert_eq!(s.client(1).expect("hero 1").life, 140);
    s.use_potion(1);
    let h = s.client(1).expect("hero 1");
    assert_eq!(h.life, 150);
    assert_eq!(h.potions, 2);
    assert_eq!(h.action, "potion");
    assert!(s.take_damage(1, 500, 2));
    assert_eq!(s.position(1), None);
    assert_eq!(s.occupant(1, 0), None);
    assert!(matches!(s.handle_packet(2, ClientPacket::Dead { client_id: 2 }), dungeon::arena::Outcome::Leave));
    assert_eq!(s.occupant(0, 1), None);
}

#[test]
fn arena_steps_write_the_log() {
    let mut s = Arena::new(3);
    let _ = s.seat(1, Some((0, 0)), 150);
    let _ = s.seat(2, Some((0, 1)), 120);
    assert_eq!(s.events().last().map(String::as_str), Some("⚡ Cliente 3 entró en (0,1)"));
    let _ = s.move_client(1, 1, 0);
    assert_eq!(s.events().last().map(String::as_str), Some("🚶 Cliente 2 → (1,0)"));
    let _ = s.attack(2, 1, 0, 10);
    assert_eq!(s.events().last().map(String::as_str), Some("⚔️  Cliente 3 atacó a 2 por 10 daño"));
    let before = s.events().len();
    let _ = s.attack(2, 2, 2, 10);
    assert_eq!(s.events().len(), before);
    assert!(!s.take_damage(1, 10, 2));
    assert_eq!(s.events().last().map(String::as_str), Some("💢 Cliente 2 recibió 10 daño de 3 → 140/150 HP"));
    s.use_potion(1);
    assert_eq!(s.events().last().map(String::as_str), Some("🧪 Cliente 2 usó poción"));
    assert!(s.take_damage(1, 500, 2));
    let n = s.events().len();
    assert_eq!(
        s.events()[n - 3..].to_vec(),
        vec![
            "💢 Cliente 2 recibió 500 daño de 3 → -350/150 HP".to_string(),
            "💀 Cliente 2 ha muerto!".to_string(),
            "💀 Cliente 2 eliminado".to_string(),
        ]
    );
    s.remove_client(2);
    assert_eq!(s.events().last().map(String::as_str), Some("💀 Cliente 3 eliminado"));
    assert_eq!(s.events().len(), 10);
}

#[test]
fn free_cells_in_row_order() {
    let mut s = Arena::new(2);
    let _ = s.seat(1, Some((0, 0)), 100);
    assert!(s.pick_free_cell(0) == Some((0, 1)));
    assert!(s.pick_free_cell(1) == Some((1, 0)));
    assert!(s.pick_free_cell(2) == Some((1, 1)));
    assert!(s.pick_free_cell(3) == Some((0, 1)));
}

#[test]
fn arena_seats_only_free_cells() {
    let mut s = Arena::new(1);
    assert!(s.find_free_cell() == Some((0, 0)));
    let _ = s.seat(1, Some((0, 0)), 100);
    assert!(s.find_free_cell().is_none());
    match s.seat(2, None, 100) {
        ServerPacket::Error { msg } => assert_eq!(msg, "Tablero lleno"),
        _ => panic!("a full board turns heroes away"),
    }
}

#[test]
fn zone_server_keeps_moves_in_zone() {
    let mut s = ZoneServer::new(5);
    s.assign_zone(zone(0, 4));
    assert!(matches!(s.seat(1, Some((0, 0)), 100), ServerPacket::Welcome { client_id: 1, row: 0, col: 0 }));
    match s.move_client(1, 5, 0) {
        ServerPacket::MoveDenied { reason } => assert_eq!(reason, "Fuera de zona"),
        _ => panic!("moves stay in the zone"),
    }
    assert!(matches!(s.move_client(1, 1, 0), ServerPacket::MoveOk { row: 1, col: 0 }));
    match s.attack(1, 7, 7, 12) {
        ZoneOutcome::CrossZone { attacker_id: 1, target_row: 7, target_col: 7, damage: 12 } => {}
        _ => panic!("a target outside the zone goes through the broker"),
    }
    match cross_zone_request(1, 7, 7, 12) {
        OrbRequest::InvokeAttack { request_id, attacker_id: 1, target_row: 7, target_col: 7, damage: 12 } => {
            assert!(request_id < 1_000_000_000)
        }
        _ => panic!("an attack request"),
    }
}

#[test]
fn steps_between_cells() {
    assert_eq!(dir_to_coords(0, 0, "N"), (0, 0));
    assert_eq!(dir_to_coords(2, 3, "S"), (3, 3));
    assert_eq!(dir_to_coords(2, 3, "E"), (2, 4));
    assert_eq!(dir_to_coords(2, 0, "W"), (2, 0));
    assert_eq!(dir_to_coords(9, 9, "S"), (10, 9));
    assert_eq!(dir_to_coords_bounded(9, 9, "S"), (9, 9));
    assert_eq!(dir_to_coords_bounded(9, 9, "E"), (9, 9));
    assert_eq!(dir_to_coords(4, 4, "X"), (4, 4));
    assert_eq!(dir_to_coords(usize::MAX, 3, "N"), (usize::MAX - 1, 3));
    assert_eq!(dir_to_coords(3, usize::MAX, "W"), (3, usize::MAX - 1));
    assert_eq!(label_of("N"), 0);
    assert_eq!(label_of("W"), 3);
    assert_eq!(label_of("NW"), 4);
}

fn cell(dir: &str, occupied: bool) -> CellState {
    CellState { direction: dir.to_string(), in_bounds: true, occupied, client_id: if occupied { Some(9) } else { None } }
}

#[test]
fn hero_session_attacks_a_neighbour() {
    let mut s = new_session(Variant::SingleServer, 150, 150, 3, None);
    assert!(matches!(s.on_packet_with(Arrival::Packet(ServerPacket::Welcome { client_id: 7, row: 1, col: 1 }), 0, 10), Command::Listen));
    assert_eq!(s.client_id, 7);
    assert_eq!((s.row, s.col), (1, 1));
    assert!(matches!(s.on_packet_with(Arrival::Quiet, 0, 10), Command::Send(ClientPacket::QueryNeighbors { client_id: 7 })));
    assert!(s.phase == Phase::AwaitNeighbors);
    let nb = ServerPacket::NeighborState { north: cell("N", true), south: cell("S", false), east: cell("E", false), west: cell("W", false) };
    match s.on_packet_with(Arrival::Packet(nb), 0, 10) {
        Command::SendAndPause(ClientPacket::Attack { client_id: 7, target_row: 0, target_col: 1, damage: 10 }, 800) => {}
        _ => panic!("the hero attacks the occupied cell"),
    }
    assert!(matches!(s.on_packet_with(Arrival::Packet(ServerPacket::TakeDamage { damage: 200, from_id: 9 }), 0, 10), Command::Die));
    assert!(s.phase == Phase::Done);
}

#[test]
fn hero_session_drinks_when_weak() {
    let mut s = new_session(Variant::Zoned, 40, 150, 1, Some((5, 5)));
    let _ = s.on_packet_with(Arrival::Packet(ServerPacket::Welcome { client_id: 3, row: 0, col: 0 }), 0, 10);
    assert_eq!((s.row, s.col), (5, 5));
    let _ = s.on_packet_with(Arrival::Quiet, 0, 10);
    let nb = ServerPacket::NeighborState { north: cell("N", true), south: cell("S", false), east: cell("E", false), west: cell("W", false) };
    assert!(matches!(s.on_packet_with(Arrival::Packet(nb), 0, 10), Command::SendAndPause(ClientPacket::UsePotion { client_id: 3 }, 800)));
    assert_eq!(s.life, 90);
    assert_eq!(s.potions, 0);
}

#[test]
fn hero_session_ends_when_the_connection_is_lost() {
    let mut s = new_session(Variant::Zoned, 100, 100, 3, None);
    let _ = s.on_packet_with(Arrival::Packet(ServerPacket::Welcome { client_id: 3, row: 0, col: 0 }), 0, 10);
    assert!(matches!(s.on_packet_with(Arrival::Quiet, 0, 10), Command::Send(ClientPacket::QueryNeighbors { client_id: 3 })));
    assert!(matches!(s.on_packet_with(Arrival::Closed, 0, 10), Command::Finish(None)));
    assert!(s.phase == Phase::Done);
}

#[test]
fn hero_follows_redirects_when_zoned() {
    let mut s = new_session(Variant::Zoned, 100, 100, 3, None);
    let _ = s.on_packet_with(Arrival::Packet(ServerPacket::Welcome { client_id: 3, row: 0, col: 0 }), 0, 10);
    match s.on_packet_with(Arrival::Packet(ServerPacket::Redirect { tcp_addr: "127.0.0.1:7002".to_string(), row: 5, col: 0 }), 0, 10) {
        Command::Finish(Some((addr, 5, 0))) => assert_eq!(addr, "127.0.0.1:7002"),
        _ => panic!("the hero goes to the other server"),
    }
}

#[test]
fn broker_answers_and_stub() {
    let miss = OrbReply::Error { request_id: 1, msg: "target_not_found: (3,3)".to_string() };
    assert!(broker_answer(&miss) == BrokerAnswer::TargetMissing);
    let fail = OrbReply::Error { request_id: 1, msg: "timeout".to_string() };
    assert!(broker_answer(&fail) == BrokerAnswer::Failed);
    let hit = OrbReply::AttackResult { request_id: 1, target_id: Some(2), damage_applied: 5, target_died: false, routing: String::new() };
    assert!(broker_answer(&hit) == BrokerAnswer::Hit);
    let mut stub = AttackStub::new();
    assert_eq!(stub.orb_addr, "127.0.0.1:8500");
    match stub.attack_request(4, 1, 2, 9) {
        OrbRequest::InvokeAttack { request_id: 1, attacker_id: 4, target_row: 1, target_col: 2, damage: 9 } => {}
        _ => panic!("the first request"),
    }
    assert_eq!(stub.next_request, 2);
}

#[test]
fn broker_requests() {
    let mut reg = Registry::new();
    let zone = OrbZone { row_start: 0, row_end: 4, col_start: 0, col_end: 9 };
    match reg.handle_request(OrbRequest::RegisterZone { server_id: 1, skeleton_addr: "127.0.0.1:9101".to_string(), zone }) {
        BrokerStep::Reply(OrbReply::ZoneRegistered { server_id: 1 }) => {}
        _ => panic!("the zone is registered"),
    }
    let cells = vec![CellReg { row: 1, col: 2, occupant_id: Some(5) }, CellReg { row: 1, col: 3, occupant_id: None }];
    match reg.handle_request(OrbRequest::UpdateCells { server_id: 1, cells }) {
        BrokerStep::Reply(OrbReply::CellsUpdated { server_id: 1, count: 2 }) => {}
        _ => panic!("the cells are filed"),
    }
    match reg.handle_request(OrbRequest::InvokeAttack { request_id: 9, attacker_id: 2, target_row: 3, target_col: 4, damage: 7 }) {
        BrokerStep::Reply(OrbReply::TargetNotFound { request_id: 9, reason }) => assert_eq!(reason, "(3,4) sin ocupante"),
        _ => panic!("nobody stands on (3,4)"),
    }
    match reg.handle_request(OrbRequest::InvokeAttack { request_id: 10, attacker_id: 2, target_row: 1, target_col: 2, damage: 7 }) {
        BrokerStep::Dispatch { request_id: 10, attacker_id: 2, target_row: 1, target_col: 2, damage: 7 } => {}
        _ => panic!("the attack goes to the skeleton"),
    }
    match reg.plan_dispatch(10, 2, 1, 2, 7) {
        Ok((addr, SkelRequest::PerformAttack { request_id: 10, attacker_id: 2, target_row: 1, target_col: 2, damage: 7 })) => {
            assert_eq!(addr, "127.0.0.1:9101")
        }
        _ => panic!("the skeleton of server 1"),
    }
    match reg.plan_dispatch(11, 2, 7, 7, 7) {
        Err(OrbReply::TargetNotFound { request_id: 11, reason }) => assert_eq!(reason, "Celda (7,7) vacía"),
        _ => panic!("nobody stands on (7,7)"),
    }
    match reg.handle_request(OrbRequest::LookupIOR { row: 1, col: 2 }) {
        BrokerStep::Reply(OrbReply::IORFound { ior }) => assert_eq!(ior.occupant_id, Some(5)),
        _ => panic!("the reference is found"),
    }
    match reg.handle_request(OrbRequest::LookupIOR { row: 1, col: 3 }) {
        BrokerStep::Reply(OrbReply::IORNotFound { row: 1, col: 3 }) => {}
        _ => panic!("an empty cell of the zone is forgotten"),
    }
}

#[test]
fn broker_outcomes() {
    let hit = SkelReply::AttackExecuted { request_id: 4, target_id: 6, damage_applied: 12, target_died: true };
    match dispatch_outcome(4, 2, 5, 5, Ok(hit)) {
        (
            OrbReply::AttackResult { request_id: 4, target_id: Some(6), damage_applied: 12, target_died: true, routing },
            Some(OrbToCoord::AttackEvent { attacker: 2, target: 6, damage: 12, target_row: 5, target_col: 5, died: true, routing: r2 }),
        ) => {
            assert_eq!(routing, "cross_zone");
            assert_eq!(r2, "cross_zone");
        }
        _ => panic!("the attack went through"),
    }
    match dispatch_outcome(4, 2, 5, 5, Ok(SkelReply::TargetNotFound { request_id: 4 })) {
        (OrbReply::TargetNotFound { request_id: 4, reason }, None) => assert_eq!(reason, "Skeleton: celda vacía"),
        _ => panic!("the skeleton found nobody"),
    }
    match dispatch_outcome(4, 2, 5, 5, Err("Sin respuesta del skeleton".to_string())) {
        (OrbReply::Error { request_id: 4, msg }, None) => assert_eq!(msg, "Sin respuesta del skeleton"),
        _ => panic!("the skeleton did not answer"),
    }
}

fn info(id: u32, row: usize, col: usize) -> ClientInfo {
    ClientInfo { id, row, col, life: 80, max_life: 100, potions: 2, action: "idle".to_string() }
}

#[test]
fn coordinator_merges_reports_and_counts_broker_events() {
    let mut c = CoordState::new();
    let a = c.add_server();
    let t0 = c.tick();
    c.apply_state_update(a, ZoneSnapshot { zone: zone(0, 4), clients: vec![info(1, 2, 3)], events: vec!["hola".to_string()] });
    assert_eq!(c.tick(), t0 + 1);
    assert_eq!(c.cell(2, 3).expect("hero 1").id, 1);
    c.apply_state_update(a, ZoneSnapshot { zone: zone(0, 4), clients: vec![], events: vec![] });
    assert!(c.cell(2, 3).is_none());
    c.record_orb_event(1, 2, 5, 2, 3, false, "cross_zone".to_string());
    c.record_orb_event(1, 2, 5, 2, 3, true, "local".to_string());
    let snap = c.snapshot();
    assert_eq!(snap.orb_stats.total_invocations, 2);
    assert_eq!(snap.orb_stats.cross_zone_hits, 1);
    assert_eq!(snap.orb_stats.local_hits, 1);
    assert_eq!(snap.orb_events.len(), 2);
    assert!(snap.orb_events[1].died);
    assert_eq!(
        snap.events,
        vec![
            "hola".to_string(),
            "🗡️  [ORB] #2 → #3 dmg=5 (cross)".to_string(),
            "🗡️  [ORB] #2 → #3 dmg=5 💀 (local)".to_string(),
        ]
    );
    assert_eq!(snap.servers.len(), 1);
    assert_eq!(snap.servers[0].client_count, 0);
}

#[test]
fn skeleton_strikes_heroes_of_its_zone() {
    let mut s = ZoneServer::new(0);
    s.assign_zone(zone(0, 4));
    let _ = s.seat(1, Some((0, 0)), 100);
    match s.skeleton_target(7, 0, 0) {
        Ok(1) => {}
        _ => panic!("hero 1 stands there"),
    }
    match s.skeleton_target(8, 5, 5) {
        Err(dungeon::orb::SkelReply::TargetNotFound { request_id: 8 }) => {}
        _ => panic!("nobody stands there"),
    }
    match s.skeleton_strike(7, 4, 1, 30, false) {
        dungeon::orb::SkelReply::AttackExecuted { request_id: 7, target_id: 1, damage_applied: 30, target_died: false } => {}
        _ => panic!("the hit lands"),
    }
    assert_eq!(s.client(1).expect("hero 1").life, 70);
    assert_eq!(s.events().last().map(String::as_str), Some("🗡️  [ORB] #5 → #2 dmg=30"));
    match s.skeleton_strike(9, 4, 1, 25, true) {
        dungeon::orb::SkelReply::AttackExecuted { damage_applied: 25, target_died: false, .. } => {}
        _ => panic!("the hero's connection applies it"),
    }
    assert_eq!(s.client(1).expect("hero 1").life, 70);
    match s.skeleton_strike(10, 4, 1, 70, false) {
        dungeon::orb::SkelReply::AttackExecuted { target_died: true, .. } => {}
        _ => panic!("the hero dies"),
    }
    assert!(s.position(1).is_none());
    assert!(s.client(1).is_none());
    let n = s.events().len();
    assert_eq!(s.events()[n - 2..].to_vec(), vec!["🗡️  [ORB] #5 → #2 dmg=70".to_string(), "💀 Cliente 2 eliminado".to_string()]);
    assert_eq!(s.events()[0], "📦 Zona: (0,0)→(4,9)");
    assert_eq!(s.events()[1], "⚡ Cliente 2 en (0,0)");
}

#[test]
fn zone_server_steps_write_the_log() {
    let mut s = ZoneServer::new(0);
    s.assign_zone(zone(0, 4));
    let _ = s.seat(1, Some((0, 0)), 100);
    let _ = s.seat(2, Some((0, 2)), 100);
    let t0 = s.tick();
    let _ = s.move_client(1, 0, 1);
    assert_eq!(s.tick(), t0 + 2);
    assert_eq!(s.events().last().map(String::as_str), Some("🚶 c2 → (0,1)"));
    let _ = s.attack(1, 0, 2, 15);
    assert_eq!(s.events().last().map(String::as_str), Some("⚔️  [local] c2 → c3 dmg=15"));
    assert!(!s.take_damage(2, 15, 1));
    assert_eq!(s.events().last().map(String::as_str), Some("💢 c3 recibió 15 de 2 → 85/100"));
    s.use_potion(2);
    assert_eq!(s.events().last().map(String::as_str), Some("🧪 c3 usó poción"));
    let t1 = s.tick();
    assert!(s.take_damage(2, 200, 1));
    assert_eq!(s.tick(), t1 + 3);
    assert_eq!(s.events().last().map(String::as_str), Some("💀 Cliente 3 eliminado"));
}

#[test]
fn zone_server_follows_the_coordinator() {
    let mut s = ZoneServer::new(3);
    assert!(s.on_coordinator(CoordToServer::AssignZone { zone: zone(5, 9) }).is_none());
    assert!(s.zone() == zone(5, 9));
    match s.on_coordinator(CoordToServer::Ping { tick: 41 }) {
        Some(ServerToCoord::Pong { server_id: 3, tick: 41 }) => {}
        _ => panic!("a ping is answered"),
    }
    let heroes = vec![ClientTransfer { client_id: 7, row: 2, col: 4, life: 33, max_life: 120, potions: 1 }];
    match s.on_coordinator(CoordToServer::AbsorbZone { zone: zone(0, 4), clients: heroes }) {
        Some(ServerToCoord::ReadyToAbsorb { server_id: 3 }) => {}
        _ => panic!("a handover is acknowledged"),
    }
    assert!(s.zone() == zone(0, 9));
    assert_eq!(
        s.events().to_vec(),
        vec!["📦 Zona: (5,0)→(9,9)".to_string(), "⬆️  Absorbiendo 1 clientes".to_string()]
    );
    assert_eq!(s.position(7), Some((2, 4)));
    let h = s.client(7).expect("hero 7");
    assert_eq!(h.life, 33);
    assert_eq!(h.potions, 1);
    assert_eq!(h.action, "idle");
}

#[test]
fn stub_numbers_requests_one_after_another() {
    let mut stub = AttackStub::new();
    for k in 1..=4u64 {
        match stub.attack_request(0, 1, 1, 5) {
            dungeon::orb::OrbRequest::InvokeAttack { request_id, .. } => assert_eq!(request_id, k),
            _ => panic!("an attack request"),
        }
    }
    assert_eq!(stub.next_request, 5);
}

#[test]
fn zone_cells_count_its_rows_and_columns() {
    let z = Zone { row_start: 0, row_end: 4, col_start: 0, col_end: 9 };
    assert_eq!(z.cells(), 50);
    let counted = (0..10).flat_map(|r| (0..10).map(move |c| (r, c))).filter(|&(r, c)| z.contains(r, c)).count();
    assert_eq!(counted, 50);
    assert_eq!(Zone { row_start: 3, row_end: 3, col_start: 2, col_end: 5 }.cells(), 4);
}

#[test]
fn coordinator_pings_every_two_seconds_and_drops_silent_servers() {
    assert!(matches!(heartbeat(1_999_999_999, 4), Heartbeat::Wait));
    assert!(matches!(heartbeat(2_000_000_000, 4), Heartbeat::Wait));
    assert!(matches!(heartbeat(2_000_000_001, 4), Heartbeat::Ping { tick: 5 }));
    assert!(link_lost(None));
    assert!(!link_lost(Some(6_000_000_000)));
    assert!(link_lost(Some(6_000_000_001)));
    assert!(!link_lost(Some(0)));
}
