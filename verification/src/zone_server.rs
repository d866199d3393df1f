use std::collections::HashMap;
use vstd::prelude::*;
use vstd::std_specs::iter::IteratorSpec;
use vstd::string::*;
use crate::arena::{
    EVENT_CAP, numbered_line, shown_number, shown_number_text, lemma_logs_one, lemma_logs_then_one, logged, logs_lines,
    removal_line,
};
use crate::catalog::count_text;
use crate::board::{
    Board, BoardView, describes, free_in_rect, lemma_free_in_rect, lemma_relocated_consistent,
    lemma_taken_consistent, relocated, taken,
};
use crate::dice::clock_subsec_nanos;
use crate::orb::{CellReg, OrbRequest, OrbZone, SkelReply, cell_message, cell_text, decimal, signed_decimal, signed_text};
use crate::protocol::{CellState, ClientPacket, ServerPacket, text};
use crate::zones::{BOARD_SIZE, ClientInfo, ClientTransfer, CoordToServer, ServerToCoord, Zone, ZoneSnapshot, copy_strings};

verus! {

broadcast use vstd::std_specs::hash::group_hash_axioms;

/// The state of one zone server: the whole board as it knows it, the zone
/// it is in charge of, its heroes and its log.
pub struct ServerState {
    server_id: u32,
    zone: Zone,
    board: Board,
    client_info: HashMap<u32, ClientInfo>,
    events: Vec<String>,
    tick: u64,
    next_id: u32,
}

/// The mathematical content of a zone [`ServerState`].
pub struct ZoneServerView {
    pub server_id: u32,
    pub zone: Zone,
    pub board: BoardView,
    pub info: Map<u32, ClientInfo>,
    pub events: Seq<String>,
    pub tick: u64,
    pub next_id: u32,
}

impl ZoneServerView {
    pub open spec fn wf(self) -> bool {
        &&& self.board.wf()
        &&& self.board.size() == BOARD_SIZE
        &&& self.events.len() <= EVENT_CAP
    }

    /// Where hero `id` asks from: its recorded position, or the corner.
    pub open spec fn position_of(self, id: u32) -> (usize, usize) {
        if self.board.positions.contains_key(id) {
            self.board.positions[id]
        } else {
            (0, 0)
        }
    }

    /// Everything but the heroes' records is as in `other`.
    pub open spec fn same_but_info(self, other: ZoneServerView) -> bool {
        &&& self.server_id == other.server_id
        &&& self.zone == other.zone
        &&& self.board == other.board
        &&& self.events == other.events
        &&& self.tick == other.tick
        &&& self.next_id == other.next_id
    }
}

/// The record of hero `id` with `action` and, when `pos` is given, a new
/// position; the other records are untouched. Nothing changes for a hero
/// without a record.
pub open spec fn updated(info: Map<u32, ClientInfo>, id: u32, action: Option<Seq<char>>, pos: Option<(usize, usize)>, new_info: Map<u32, ClientInfo>) -> bool {
    if info.contains_key(id) {
        let o = info[id];
        let n = new_info[id];
        &&& new_info.dom() == info.dom()
        &&& forall|k: u32| k != id && #[trigger] info.contains_key(k) ==> new_info[k] == info[k]
        &&& n.id == o.id
        &&& n.life == o.life
        &&& n.max_life == o.max_life
        &&& n.potions == o.potions
        &&& match action {
            Some(a) => n.action@ == a,
            None => n.action == o.action,
        }
        &&& match pos {
            Some(p) => n.row == p.0 && n.col == p.1,
            None => n.row == o.row && n.col == o.col,
        }
    } else {
        new_info == info
    }
}

/// The merged zone of a server that takes over `zone`: the rows of both,
/// every column.
pub open spec fn merged(mine: Zone, zone: Zone) -> Zone {
    Zone {
        row_start: if mine.row_start <= zone.row_start { mine.row_start } else { zone.row_start },
        row_end: if mine.row_end >= zone.row_end { mine.row_end } else { zone.row_end },
        col_start: 0,
        col_end: (BOARD_SIZE - 1) as usize,
    }
}

/// A server that takes over a zone keeps every cell of the board that was
/// its own and gains every cell of the board of the zone it takes over; every
/// cell of the merged zone lies on the board, in a row between the first row
/// of one of the two zones and the last row of one of them.
pub proof fn lemma_merged_covers_both(mine: Zone, zone: Zone, r: int, c: int)
    ensures
        0 <= c < BOARD_SIZE && (mine.spec_contains(r, c) || zone.spec_contains(r, c)) ==> merged(mine, zone).spec_contains(r, c),
        merged(mine, zone).spec_contains(r, c) ==> {
            &&& 0 <= c < BOARD_SIZE
            &&& r >= mine.row_start || r >= zone.row_start
            &&& r <= mine.row_end || r <= zone.row_end
        },
{
}

/// The board after the transferred heroes were put on their cells in order.
pub open spec fn absorbed_board(b: BoardView, cts: Seq<ClientTransfer>) -> BoardView
    decreases cts.len(),
{
    if cts.len() == 0 {
        b
    } else {
        let prev = absorbed_board(b, cts.drop_last());
        let ct = cts.last();
        BoardView {
            cells: prev.set(ct.row as int, ct.col as int, Some(ct.client_id)),
            positions: prev.positions.insert(ct.client_id, (ct.row, ct.col)),
        }
    }
}

/// The record made for a transferred hero.
pub open spec fn transferred_info(ct: ClientTransfer, action: String) -> ClientInfo {
    ClientInfo {
        id: ct.client_id,
        row: ct.row,
        col: ct.col,
        life: ct.life,
        max_life: ct.max_life,
        potions: ct.potions,
        action,
    }
}

/// The records after the transferred heroes were filed in order.
pub open spec fn absorbed_info(info: Map<u32, ClientInfo>, cts: Seq<ClientTransfer>, action: String) -> Map<u32, ClientInfo>
    decreases cts.len(),
{
    if cts.len() == 0 {
        info
    } else {
        absorbed_info(info, cts.drop_last(), action).insert(cts.last().client_id, transferred_info(cts.last(), action))
    }
}

/// Every transferred hero stands on a cell of the board.
pub open spec fn transfers_on_board(cts: Seq<ClientTransfer>) -> bool {
    forall|i: int| 0 <= i < cts.len() ==> (#[trigger] cts[i]).row < BOARD_SIZE && cts[i].col < BOARD_SIZE
}

proof fn lemma_absorbed_board_wf(b: BoardView, cts: Seq<ClientTransfer>)
    requires
        b.wf(),
        b.size() == BOARD_SIZE,
        transfers_on_board(cts),
    ensures
        absorbed_board(b, cts).wf(),
        absorbed_board(b, cts).size() == BOARD_SIZE,
    decreases cts.len(),
{
    if cts.len() > 0 {
        assert(transfers_on_board(cts.drop_last())) by {
            assert forall|i: int| 0 <= i < cts.drop_last().len() implies (#[trigger] cts.drop_last()[i]).row < BOARD_SIZE
                && cts.drop_last()[i].col < BOARD_SIZE by {
                assert(cts.drop_last()[i] == cts[i]);
            }
        }
        lemma_absorbed_board_wf(b, cts.drop_last());
        let prev = absorbed_board(b, cts.drop_last());
        let ct = cts.last();
        assert(ct == cts[cts.len() - 1]);
        let nb = absorbed_board(b, cts);
        assert forall|r: int| 0 <= r < nb.size() implies (#[trigger] nb.cells[r]).len() == nb.size() by {
            if r != ct.row {
                assert(nb.cells[r] == prev.cells[r]);
            }
        }
    }
}

/// What a zone server does with one packet of a hero.
pub enum Outcome {
    /// Answer the hero with this packet.
    Reply(ServerPacket),
    /// Hand this packet to the connection of hero `target`, of this zone.
    Deliver { target: u32, packet: ServerPacket },
    /// The target cell is outside this zone: ask the broker to route the attack.
    CrossZone { attacker_id: u32, target_row: usize, target_col: usize, damage: i32 },
    /// Nothing to send.
    Nothing,
    /// The hero is gone: close its connection.
    Leave,
}

impl View for ServerState {
    type V = ZoneServerView;

    closed spec fn view(&self) -> ZoneServerView {
        ZoneServerView {
            server_id: self.server_id,
            zone: self.zone,
            board: self.board@,
            info: self.client_info@,
            events: self.events@,
            tick: self.tick,
            next_id: self.next_id,
        }
    }
}

impl ServerState {
    /// A zone server with an empty board, in charge of the first row until
    /// the coordinator assigns it a zone.
    pub fn new(server_id: u32) -> (s: ServerState)
        ensures
            s@.wf(),
            s@.server_id == server_id,
            s@.zone == (Zone { row_start: 0, row_end: 0, col_start: 0, col_end: 9 }),
            s@.board.positions.is_empty(),
            forall|r: int, c: int| s@.board.in_bounds(r, c) ==> #[trigger] s@.board.at(r, c) is None,
            s@.info.is_empty(),
            s@.events.len() == 0,
            s@.tick == 0,
            s@.next_id == 0,
    {
        ServerState {
            server_id,
            zone: Zone { row_start: 0, row_end: 0, col_start: 0, col_end: 9 },
            board: Board::new(BOARD_SIZE),
            client_info: HashMap::new(),
            events: Vec::new(),
            tick: 0,
            next_id: 0,
        }
    }

    pub fn server_id(&self) -> (id: u32)
        ensures
            id == self@.server_id,
    {
        self.server_id
    }

    pub fn zone(&self) -> (z: Zone)
        ensures
            z == self@.zone,
    {
        self.zone
    }

    pub fn tick(&self) -> (t: u64)
        ensures
            t == self@.tick,
    {
        self.tick
    }

    /// The log, oldest entry first.
    pub fn events(&self) -> (e: &Vec<String>)
        ensures
            e@ == self@.events,
    {
        &self.events
    }

    /// The record of hero `id`.
    pub fn client(&self, id: u32) -> (c: Option<ClientInfo>)
        ensures
            match c {
                Some(ci) => self@.info.contains_key(id) && ci == self@.info[id],
                None => !self@.info.contains_key(id),
            },
    {
        match self.client_info.get(&id) {
            Some(ci) => Some(ci.duplicate()),
            None => None,
        }
    }

    /// The position recorded for hero `id`.
    pub fn position(&self, id: u32) -> (p: Option<(usize, usize)>)
        ensures
            match p {
                Some(pos) => self@.board.positions.contains_key(id) && self@.board.positions[id] == pos,
                None => !self@.board.positions.contains_key(id),
            },
    {
        self.board.position(id)
    }

    /// Hands out the next hero id.
    pub fn next_client_id(&mut self) -> (id: u32)
        requires
            old(self)@.next_id < u32::MAX,
        ensures
            id == old(self)@.next_id,
            final(self)@ == (ZoneServerView { next_id: (id + 1) as u32, ..old(self)@ }),
    {
        let id = self.next_id;
        self.next_id = self.next_id + 1;
        id
    }

    /// Takes charge of `zone` and logs it.
    pub fn assign_zone(&mut self, zone: Zone)
        requires
            old(self)@.wf(),
            old(self)@.tick < u64::MAX,
        ensures
            final(self)@.wf(),
            zone_assigned(old(self)@, final(self)@, zone),
    {
        let head = cell_message("📦 Zona: ", zone.row_start, zone.col_start, "→");
        let msg = cell_message(head.as_str(), zone.row_end, zone.col_end, "");
        proof {
            lemma_logs_one(self@.events, msg, EVENT_CAP as nat);
        }
        self.log(msg);
        self.zone = zone;
    }

    /// Takes over `zone` from a server that went away, with the heroes that
    /// stood in it: the zone grows to cover the rows of both, and each hero
    /// is put on its cell with its life and potions and nothing done yet; the
    /// takeover is logged first.
    pub fn absorb_zone(&mut self, zone: Zone, clients: Vec<ClientTransfer>)
        requires
            old(self)@.wf(),
            old(self)@.tick < u64::MAX,
            transfers_on_board(clients@),
        ensures
            final(self)@.wf(),
            final(self)@.zone == merged(old(self)@.zone, zone),
            final(self)@.board == absorbed_board(old(self)@.board, clients@),
            exists|a: String| a@ == "idle"@ && final(self)@.info == absorbed_info(old(self)@.info, clients@, a),
            final(self)@.server_id == old(self)@.server_id,
            logs_lines(old(self)@.events, final(self)@.events, seq![absorb_line(clients@.len())], EVENT_CAP as nat),
            final(self)@.tick == old(self)@.tick + 1,
            final(self)@.next_id == old(self)@.next_id,
    {
        let msg = count_text("⬆️  Absorbiendo ", clients.len(), " clientes");
        proof {
            lemma_logs_one(self@.events, msg, EVENT_CAP as nat);
        }
        self.log(msg);
        let ghost logged_events = self@.events;
        let rs = if self.zone.row_start <= zone.row_start { self.zone.row_start } else { zone.row_start };
        let re = if self.zone.row_end >= zone.row_end { self.zone.row_end } else { zone.row_end };
        self.zone = Zone { row_start: rs, row_end: re, col_start: 0, col_end: BOARD_SIZE - 1 };
        let idle = text("idle");
        let ghost b0 = self.board@;
        let ghost i0 = self.client_info@;
        let ghost z0 = self.zone;
        let ghost e0 = self.events@;
        let ghost t0 = self.tick;
        let ghost n0 = self.next_id;
        let ghost s0 = self.server_id;
        let mut i: usize = 0;
        while i < clients.len()
            invariant
                i <= clients@.len(),
                transfers_on_board(clients@),
                b0.wf(),
                b0.size() == BOARD_SIZE,
                self.board@ == absorbed_board(b0, clients@.take(i as int)),
                self.board@.wf(),
                self.board@.size() == BOARD_SIZE,
                self.client_info@ == absorbed_info(i0, clients@.take(i as int), idle),
                idle@ == "idle"@,
                self.zone == z0,
                self.events@ == e0,
                self.tick == t0,
                self.next_id == n0,
                self.server_id == s0,
            decreases clients@.len() - i,
        {
            let ct = clients[i];
            assert(ct.row < BOARD_SIZE && ct.col < BOARD_SIZE);
            self.board.place(ct.client_id, ct.row, ct.col);
            self.client_info.insert(
                ct.client_id,
                ClientInfo {
                    id: ct.client_id,
                    row: ct.row,
                    col: ct.col,
                    life: ct.life,
                    max_life: ct.max_life,
                    potions: ct.potions,
                    action: idle.clone(),
                },
            );
            assert(clients@.take(i as int + 1).drop_last() == clients@.take(i as int));
            i = i + 1;
        }
        assert(clients@.take(clients@.len() as int) == clients@);
        assert(self@.info == absorbed_info(old(self)@.info, clients@, idle));
        assert(self@.events == logged_events);
    }

    /// The free cell of the zone at index `seed` modulo their number, row by
    /// row, or `None` when the zone is full.
    pub fn pick_free_cell(&self, seed: u32) -> (cell: Option<(usize, usize)>)
        requires
            self@.wf(),
            self@.zone.fits(),
        ensures
            ({
                let z = self@.zone;
                let free = free_in_rect(self@.board, z.row_start as int, z.row_end as int, z.col_start as int, z.col_end as int);
                &&& cell is None <==> free.len() == 0
                &&& cell matches Some(p) ==> p == free[seed as int % free.len() as int]
            }),
    {
        let z = self.zone;
        let candidates = self.board.free_cells(z.row_start, z.row_end, z.col_start, z.col_end);
        if candidates.len() == 0 {
            return None;
        }
        let idx = (seed as usize) % candidates.len();
        Some(candidates[idx])
    }

    /// A free cell of the zone chosen by the clock, or `None` when the zone
    /// is full.
    pub fn find_free_cell(&self) -> (cell: Option<(usize, usize)>)
        requires
            self@.wf(),
            self@.zone.fits(),
        ensures
            cell is None <==> forall|r: int, c: int| self@.zone.spec_contains(r, c) ==> !#[trigger] self@.board.is_free(r, c),
            cell matches Some(p) ==> self@.zone.spec_contains(p.0 as int, p.1 as int) && self@.board.is_free(p.0 as int, p.1 as int),
    {
        let seed = clock_subsec_nanos();
        let cell = self.pick_free_cell(seed);
        proof {
            let z = self@.zone;
            lemma_free_in_rect(self@.board, z.row_start as int, z.row_end as int, z.col_start as int, z.col_end as int);
            let free = free_in_rect(self@.board, z.row_start as int, z.row_end as int, z.col_start as int, z.col_end as int);
            if let Some(p) = cell {
                assert(free.contains(p));
                assert(self@.board.is_free(p.0 as int, p.1 as int));
            } else {
                assert forall|r: int, c: int| self@.zone.spec_contains(r, c) implies !#[trigger] self@.board.is_free(r, c) by {
                    if self@.board.is_free(r, c) {
                        assert(free.contains((r as usize, c as usize)));
                    }
                }
            }
            if free.len() > 0 {
                assert(free.contains(free[0]));
            }
        }
        cell
    }

    /// Puts hero `id` on `(row, col)` and updates the position in its record.
    pub fn place_client(&mut self, id: u32, row: usize, col: usize)
        requires
            old(self)@.wf(),
            row < BOARD_SIZE,
            col < BOARD_SIZE,
        ensures
            final(self)@.wf(),
            final(self)@.board.cells == old(self)@.board.set(row as int, col as int, Some(id)),
            final(self)@.board.positions == old(self)@.board.positions.insert(id, (row, col)),
            updated(old(self)@.info, id, None, Some((row, col)), final(self)@.info),
            final(self)@.server_id == old(self)@.server_id,
            final(self)@.zone == old(self)@.zone,
            final(self)@.events == old(self)@.events,
            final(self)@.tick == old(self)@.tick,
            final(self)@.next_id == old(self)@.next_id,
    {
        self.board.place(id, row, col);
        self.update_record(id, None, Some((row, col)));
    }

    /// Sets the action and position of hero `id`'s record, if it has one.
    fn update_record(&mut self, id: u32, action: Option<&str>, pos: Option<(usize, usize)>)
        ensures
            updated(
                old(self)@.info,
                id,
                match action { Some(a) => Some(a@), None => None },
                pos,
                final(self)@.info,
            ),
            final(self)@.same_but_info(old(self)@),
    {
        match self.client_info.get(&id) {
            Some(ci) => {
                let (row, col) = match pos {
                    Some(p) => p,
                    None => (ci.row, ci.col),
                };
                let act = match action {
                    Some(a) => text(a),
                    None => ci.action.clone(),
                };
                let rec = ClientInfo { id: ci.id, row, col, life: ci.life, max_life: ci.max_life, potions: ci.potions, action: act };
                let ghost before = self.client_info@;
                self.client_info.insert(id, rec);
                assert(self.client_info@.dom() =~= before.dom());
            },
            None => {},
        }
    }

    /// Takes hero `id` off the board, forgets it and logs its removal.
    pub fn remove_client(&mut self, id: u32)
        requires
            old(self)@.wf(),
            old(self)@.tick < u64::MAX,
        ensures
            final(self)@.wf(),
            final(self)@.board == taken(old(self)@.board, id),
            final(self)@.info == old(self)@.info.remove(id),
            final(self)@.server_id == old(self)@.server_id,
            final(self)@.zone == old(self)@.zone,
            logs_lines(old(self)@.events, final(self)@.events, seq![removal_line(id)], EVENT_CAP as nat),
            final(self)@.tick == old(self)@.tick + 1,
            final(self)@.next_id == old(self)@.next_id,
    {
        self.board.take(id);
        self.client_info.remove(&id);
        let msg = numbered_line("💀 Cliente ", id, " eliminado");
        proof {
            lemma_logs_one(self@.events, msg, EVENT_CAP as nat);
        }
        self.log(msg);
    }

    /// The neighbours of `(row, col)`: north, south, east, west.
    pub fn neighbors(&self, row: usize, col: usize) -> (out: [CellState; 4])
        requires
            self@.wf(),
            row < isize::MAX,
            col < isize::MAX,
        ensures
            forall|i: int| 0 <= i < 4 ==> describes(self@.board, #[trigger] out@[i], i, row as int, col as int),
    {
        self.board.neighbors(row, col)
    }

    /// Appends `msg` to the log, dropping the oldest entry past the cap, and
    /// advances the tick.
    pub fn log(&mut self, msg: String)
        requires
            old(self)@.wf(),
            old(self)@.tick < u64::MAX,
        ensures
            final(self)@.wf(),
            final(self)@ == (ZoneServerView {
                events: logged(old(self)@.events, msg, EVENT_CAP as nat),
                tick: (old(self)@.tick + 1) as u64,
                ..old(self)@
            }),
    {
        self.events.push(msg);
        if self.events.len() > EVENT_CAP {
            self.events.remove(0);
        }
        self.tick = self.tick + 1;
    }

    /// The zone, every hero's record (in the order in which the table of
    /// records is walked) and the log.
    pub fn snapshot(&self) -> (snap: ZoneSnapshot)
        ensures
            snap.zone == self@.zone,
            snap.clients@.len() == self@.info.dom().len(),
            forall|i: int| 0 <= i < snap.clients@.len() ==> self@.info.values().contains(#[trigger] snap.clients@[i]),
            forall|id: u32| #[trigger] self@.info.contains_key(id) ==> snap.clients@.contains(self@.info[id]),
            snap.events@ == self@.events,
    {
        let mut clients: Vec<ClientInfo> = Vec::new();
        let ghost seq = vstd::std_specs::hash::spec_hash_map_iter(&self.client_info).remaining();
        for (k, ci) in it: self.client_info.iter()
            invariant
                it.seq() == seq,
                clients@.len() == it.index(),
                forall|i: int| 0 <= i < clients@.len() ==> #[trigger] clients@[i] == *seq[i].1,
        {
            clients.push(ci.duplicate());
        }
        proof {
            assert forall|i: int| 0 <= i < clients@.len() implies self@.info.values().contains(#[trigger] clients@[i]) by {
                let id = *seq[i].0;
                assert(self.client_info@.contains_key(id) && self.client_info@[id] == clients@[i]);
                assert(self@.info.contains_key(id) && self@.info[id] == clients@[i]);
            }
            assert forall|id: u32| #[trigger] self@.info.contains_key(id) implies clients@.contains(self@.info[id]) by {
                assert(seq.contains((&id, &self.client_info@[id])));
                let i = choose|i: int| 0 <= i < seq.len() && seq[i] == (&id, &self.client_info@[id]);
                assert(clients@[i] == self@.info[id]);
            }
        }
        ZoneSnapshot { zone: self.zone, clients, events: copy_strings(&self.events) }
    }

    /// Who stands at `(row, col)`; nobody off the board.
    pub fn occupant_at(&self, row: usize, col: usize) -> (o: Option<u32>)
        requires
            self@.wf(),
        ensures
            o == if row < BOARD_SIZE && col < BOARD_SIZE { self@.board.at(row as int, col as int) } else { None },
    {
        if row < BOARD_SIZE && col < BOARD_SIZE {
            self.board.occupant(row, col)
        } else {
            None
        }
    }

    /// Subtracts `damage` from the life of hero `target_id` and tells the
    /// damage applied and whether the hero died; a hero without a record
    /// takes nothing.
    pub fn apply_damage_direct(&mut self, target_id: u32, damage: i32) -> (res: (i32, bool))
        requires
            old(self)@.info.contains_key(target_id) ==> i32::MIN <= old(self)@.info[target_id].life - damage <= i32::MAX,
        ensures
            final(self)@.same_but_info(old(self)@),
            if old(self)@.info.contains_key(target_id) {
                let o = old(self)@.info[target_id];
                &&& final(self)@.info == old(self)@.info.insert(target_id, ClientInfo { life: (o.life - damage) as i32, ..o })
                &&& res == (damage, o.life - damage <= 0)
            } else {
                &&& final(self)@.info == old(self)@.info
                &&& res == (0i32, false)
            },
    {
        match self.client_info.get(&target_id) {
            Some(ci) => {
                let life = ci.life - damage;
                let rec = ClientInfo { life, ..ci.duplicate() };
                self.client_info.insert(target_id, rec);
                (damage, life <= 0)
            },
            None => (0, false),
        }
    }

    /// Every occupied cell as `(row, col, id)`, in the order in which the
    /// positions are walked.
    pub fn occupied_cells(&self) -> (out: Vec<(usize, usize, u32)>)
        ensures
            out@.len() == self@.board.positions.dom().len(),
            forall|i: int| 0 <= i < out@.len() ==> {
                let (r, c, id) = #[trigger] out@[i];
                self@.board.positions.contains_key(id) && self@.board.positions[id] == (r, c)
            },
            forall|id: u32| #[trigger] self@.board.positions.contains_key(id) ==> exists|i: int|
                0 <= i < out@.len() && #[trigger] out@[i] == (self@.board.positions[id].0, self@.board.positions[id].1, id),
    {
        self.board.occupied()
    }

    /// The cells this server publishes to the broker: each occupied cell with
    /// its occupant.
    pub fn cell_registrations(&self) -> (out: Vec<CellReg>)
        ensures
            out@.len() == self@.board.positions.dom().len(),
            forall|i: int| 0 <= i < out@.len() ==> {
                let cr = #[trigger] out@[i];
                &&& cr.occupant_id is Some
                &&& self@.board.positions.contains_key(cr.occupant_id->0)
                &&& self@.board.positions[cr.occupant_id->0] == (cr.row, cr.col)
            },
            forall|id: u32| #[trigger] self@.board.positions.contains_key(id) ==> exists|i: int|
                0 <= i < out@.len() && #[trigger] out@[i] == (CellReg { row: self@.board.positions[id].0, col: self@.board.positions[id].1, occupant_id: Some(id) }),
    {
        let cells = self.occupied_cells();
        let mut out: Vec<CellReg> = Vec::new();
        let mut i: usize = 0;
        while i < cells.len()
            invariant
                i <= cells@.len(),
                out@.len() == i,
                forall|j: int| 0 <= j < i ==> #[trigger] out@[j] == (CellReg { row: cells@[j].0, col: cells@[j].1, occupant_id: Some(cells@[j].2) }),
            decreases cells@.len() - i,
        {
            let (r, c, id) = cells[i];
            out.push(CellReg { row: r, col: c, occupant_id: Some(id) });
            i = i + 1;
        }
        proof {
            assert forall|i: int| 0 <= i < out@.len() implies {
                let cr = #[trigger] out@[i];
                &&& cr.occupant_id is Some
                &&& self@.board.positions.contains_key(cr.occupant_id->0)
                &&& self@.board.positions[cr.occupant_id->0] == (cr.row, cr.col)
            } by {
                let (r, c, id) = cells@[i];
            }
            assert forall|id: u32| #[trigger] self@.board.positions.contains_key(id) implies exists|i: int|
                0 <= i < out@.len() && #[trigger] out@[i] == (CellReg { row: self@.board.positions[id].0, col: self@.board.positions[id].1, occupant_id: Some(id) }) by {
                let i = choose|i: int| 0 <= i < cells@.len() && #[trigger] cells@[i] == (self@.board.positions[id].0, self@.board.positions[id].1, id);
                assert(out@[i] == (CellReg { row: self@.board.positions[id].0, col: self@.board.positions[id].1, occupant_id: Some(id) }));
            }
        }
        out
    }

    /// The zone in the form the broker keeps.
    pub fn orb_zone(&self) -> (z: OrbZone)
        ensures
            z == (OrbZone {
                row_start: self@.zone.row_start,
                row_end: self@.zone.row_end,
                col_start: self@.zone.col_start,
                col_end: self@.zone.col_end,
            }),
    {
        OrbZone { row_start: self.zone.row_start, row_end: self.zone.row_end, col_start: self.zone.col_start, col_end: self.zone.col_end }
    }

    /// Seats hero `client_id` on `cell` with `max_life` points of life,
    /// three potions and nothing done yet, and logs the arrival; with no cell
    /// it is turned away.
    pub fn seat(&mut self, client_id: u32, cell: Option<(usize, usize)>, max_life: i32) -> (reply: ServerPacket)
        requires
            old(self)@.wf(),
            cell is Some ==> old(self)@.tick < u64::MAX,
            cell matches Some(p) ==> old(self)@.board.is_free(p.0 as int, p.1 as int),
        ensures
            final(self)@.wf(),
            zone_seat_post(old(self)@, final(self)@, client_id, cell, max_life, reply),
    {
        match cell {
            Some((r, c)) => {
                self.board.place(client_id, r, c);
                self.client_info.insert(
                    client_id,
                    ClientInfo { id: client_id, row: r, col: c, life: max_life, max_life, potions: 3, action: text("idle") },
                );
                let head = numbered_line("⚡ Cliente ", client_id, " en ");
                let msg = cell_message(head.as_str(), r, c, "");
                proof {
                    lemma_logs_one(self@.events, msg, EVENT_CAP as nat);
                }
                self.log(msg);
                ServerPacket::Welcome { client_id, row: r, col: c }
            },
            None => ServerPacket::Error { msg: text("Zona llena") },
        }
    }

    /// Seats a newly connected hero on a free cell of the zone chosen by the
    /// clock, with a maximum life between 100 and 200 also taken from the
    /// clock.
    pub fn join(&mut self, client_id: u32) -> (reply: ServerPacket)
        requires
            old(self)@.wf(),
            old(self)@.tick < u64::MAX,
            old(self)@.zone.fits(),
        ensures
            final(self)@.wf(),
            exists|cell: Option<(usize, usize)>, max_life: i32|
                100 <= max_life <= 200
                && (cell is None <==> forall|r: int, c: int| old(self)@.zone.spec_contains(r, c) ==> !#[trigger] old(self)@.board.is_free(r, c))
                && (cell matches Some(p) ==> old(self)@.zone.spec_contains(p.0 as int, p.1 as int) && old(self)@.board.is_free(p.0 as int, p.1 as int))
                && #[trigger] zone_seat_post(old(self)@, final(self)@, client_id, cell, max_life, reply),
    {
        let cell = self.find_free_cell();
        let nanos = clock_subsec_nanos();
        let max_life: i32 = 100 + ((nanos / 1_000_000) % 101) as i32;
        self.seat(client_id, cell, max_life)
    }

    /// The packet answering hero `client_id`'s question about its
    /// surroundings (a hero with no recorded position asks from the corner).
    pub fn query_neighbors(&self, client_id: u32) -> (reply: ServerPacket)
        requires
            self@.wf(),
        ensures
            reply matches ServerPacket::NeighborState { north, south, east, west } && {
                let (r, c) = self@.position_of(client_id);
                &&& describes(self@.board, north, 0, r as int, c as int)
                &&& describes(self@.board, south, 1, r as int, c as int)
                &&& describes(self@.board, east, 2, r as int, c as int)
                &&& describes(self@.board, west, 3, r as int, c as int)
            },
    {
        let (r, c) = match self.board.position(client_id) {
            Some(p) => p,
            None => (0, 0),
        };
        let north = self.board.neighbor(0, r, c);
        let south = self.board.neighbor(1, r, c);
        let east = self.board.neighbor(2, r, c);
        let west = self.board.neighbor(3, r, c);
        ServerPacket::NeighborState { north, south, east, west }
    }

    /// Moves hero `client_id` to `(row, col)` when that cell is on the board,
    /// empty and inside the zone, and logs the move; otherwise refuses and
    /// says why.
    pub fn move_client(&mut self, client_id: u32, row: usize, col: usize) -> (reply: ServerPacket)
        requires
            old(self)@.wf(),
            old(self)@.tick + zone_packet_ticks(old(self)@, client_id, ClientPacket::Move { client_id, row, col }) <= u64::MAX,
        ensures
            final(self)@.wf(),
            zone_move_post(old(self)@, final(self)@, client_id, row, col, reply),
    {
        if row >= BOARD_SIZE || col >= BOARD_SIZE || self.board.occupant(row, col).is_some() {
            return ServerPacket::MoveDenied { reason: text("Casilla no disponible") };
        }
        if !self.zone.contains(row, col) {
            return ServerPacket::MoveDenied { reason: text("Fuera de zona") };
        }
        match self.board.position(client_id) {
            Some((or, oc)) => self.board.set_cell(or, oc, None),
            None => {},
        }
        self.board.place(client_id, row, col);
        self.update_record(client_id, Some("move"), Some((row, col)));
        self.tick = self.tick + 1;
        let head = numbered_line("🚶 c", client_id, " → ");
        let msg = cell_message(head.as_str(), row, col, "");
        proof {
            lemma_logs_one(self@.events, msg, EVENT_CAP as nat);
        }
        self.log(msg);
        ServerPacket::MoveOk { row, col }
    }

    /// Hero `client_id` attacks cell `(target_row, target_col)`: a hero of
    /// this zone standing there is to receive the damage; any other target
    /// goes through the broker. A local hit is logged.
    pub fn attack(&mut self, client_id: u32, target_row: usize, target_col: usize, damage: i32) -> (out: Outcome)
        requires
            old(self)@.wf(),
            old(self)@.tick + zone_packet_ticks(old(self)@, client_id, ClientPacket::Attack { client_id, target_row, target_col, damage })
                <= u64::MAX,
        ensures
            final(self)@.wf(),
            zone_attack_post(old(self)@, final(self)@, client_id, target_row, target_col, damage, out),
    {
        self.update_record(client_id, Some("attack"), None);
        let in_zone = target_row < BOARD_SIZE && target_col < BOARD_SIZE && self.zone.contains(target_row, target_col);
        let local = if in_zone { self.board.occupant(target_row, target_col) } else { None };
        match local {
            Some(tid) => {
                self.tick = self.tick + 1;
                let mut msg = numbered_line("⚔️  [local] c", client_id, " → c");
                msg.append(shown_number_text(tid).as_str());
                msg.append(" dmg=");
                msg.append(signed_text(damage as i64).as_str());
                proof {
                    lemma_logs_one(self@.events, msg, EVENT_CAP as nat);
                }
                self.log(msg);
                Outcome::Deliver { target: tid, packet: ServerPacket::TakeDamage { damage, from_id: client_id } }
            },
            None => Outcome::CrossZone { attacker_id: client_id, target_row, target_col, damage },
        }
    }

    /// Hero `client_id` drinks a potion, which is logged.
    pub fn use_potion(&mut self, client_id: u32)
        requires
            old(self)@.wf(),
            old(self)@.tick + 2 <= u64::MAX,
            old(self)@.info.contains_key(client_id) ==> old(self)@.info[client_id].life + 50 <= i32::MAX,
        ensures
            final(self)@.wf(),
            zone_potion_post(old(self)@, final(self)@, client_id),
    {
        match self.client_info.get(&client_id) {
            Some(ci) => {
                let potions = if ci.potions > 0 { ci.potions - 1 } else { 0 };
                let healed = ci.life + 50;
                let life = if healed < ci.max_life { healed } else { ci.max_life };
                let rec = ClientInfo { id: ci.id, row: ci.row, col: ci.col, life, max_life: ci.max_life, potions, action: text("potion") };
                let ghost before = self.client_info@;
                self.client_info.insert(client_id, rec);
                assert(self.client_info@.dom() =~= before.dom());
            },
            None => {},
        }
        self.tick = self.tick + 1;
        let msg = numbered_line("🧪 c", client_id, " usó poción");
        proof {
            lemma_logs_one(self@.events, msg, EVENT_CAP as nat);
        }
        self.log(msg);
    }

    /// Hero `client_id` takes `damage` points from hero `from_id`, which is
    /// logged; returns whether it died, in which case it has left the board.
    pub fn take_damage(&mut self, client_id: u32, damage: i32, from_id: u32) -> (dead: bool)
        requires
            old(self)@.wf(),
            old(self)@.info.contains_key(client_id) ==> old(self)@.tick
                + if old(self)@.info[client_id].life - damage <= 0 { 3int } else { 2int } <= u64::MAX,
            old(self)@.info.contains_key(client_id) ==> i32::MIN <= old(self)@.info[client_id].life - damage <= i32::MAX,
        ensures
            final(self)@.wf(),
            zone_damage_post(old(self)@, final(self)@, client_id, damage, from_id, dead),
    {
        match self.client_info.get(&client_id) {
            Some(ci) => {
                let life = ci.life - damage;
                let max_life = ci.max_life;
                let rec = ClientInfo { life, ..ci.duplicate() };
                let ghost before = self.client_info@;
                self.client_info.insert(client_id, rec);
                assert(self.client_info@.remove(client_id) =~= before.remove(client_id));
                let mut msg = numbered_line("💢 c", client_id, " recibió ");
                msg.append(signed_text(damage as i64).as_str());
                msg.append(" de ");
                msg.append(shown_number_text(from_id).as_str());
                msg.append(" → ");
                msg.append(signed_text(life as i64).as_str());
                msg.append("/");
                msg.append(signed_text(max_life as i64).as_str());
                let ghost e0 = self@.events;
                proof {
                    lemma_logs_one(e0, msg, EVENT_CAP as nat);
                }
                self.log(msg);
                self.tick = self.tick + 1;
                let dead = life <= 0;
                if dead {
                    let ghost e1 = self@.events;
                    self.remove_client(client_id);
                    proof {
                        lemma_logs_then_one(e0, e1, seq![msg@], self@.events, removal_line(client_id), EVENT_CAP as nat);
                        assert(seq![msg@].push(removal_line(client_id)) =~= seq![msg@, removal_line(client_id)]);
                    }
                }
                dead
            },
            None => false,
        }
    }

    /// What the zone server does with packet `pkt` from the connection of
    /// hero `client_id` (the id written inside the packet is not looked at).
    pub fn handle_packet(&mut self, client_id: u32, pkt: ClientPacket) -> (out: Outcome)
        requires
            old(self)@.wf(),
            old(self)@.tick + zone_packet_ticks(old(self)@, client_id, pkt) <= u64::MAX,
            zone_packet_acceptable(old(self)@, client_id, pkt),
        ensures
            final(self)@.wf(),
            zone_handle_post(old(self)@, final(self)@, client_id, pkt, out),
    {
        match pkt {
            ClientPacket::QueryNeighbors { .. } => Outcome::Reply(self.query_neighbors(client_id)),
            ClientPacket::Move { row, col, .. } => Outcome::Reply(self.move_client(client_id, row, col)),
            ClientPacket::Attack { target_row, target_col, damage, .. } => self.attack(client_id, target_row, target_col, damage),
            ClientPacket::UsePotion { .. } => {
                self.use_potion(client_id);
                Outcome::Nothing
            },
            ClientPacket::Dead { .. } => {
                self.remove_client(client_id);
                Outcome::Leave
            },
        }
    }

    /// The occupant the skeleton is asked to hit, or the answer that the cell
    /// is empty (or off the board).
    pub fn skeleton_target(&self, request_id: u64, target_row: usize, target_col: usize) -> (t: Result<u32, SkelReply>)
        requires
            self@.wf(),
        ensures
            ({
                let o = if target_row < BOARD_SIZE && target_col < BOARD_SIZE {
                    self@.board.at(target_row as int, target_col as int)
                } else {
                    None
                };
                match o {
                    Some(id) => t == Ok::<u32, SkelReply>(id),
                    None => t == Err::<u32, SkelReply>(SkelReply::TargetNotFound { request_id }),
                }
            }),
    {
        match self.occupant_at(target_row, target_col) {
            Some(id) => Ok(id),
            None => Err(SkelReply::TargetNotFound { request_id }),
        }
    }

    /// The skeleton hits hero `target_id` with `damage` points of hero
    /// `attacker_id`'s blow, as in [`strike_post`].
    pub fn skeleton_strike(&mut self, request_id: u64, attacker_id: u32, target_id: u32, damage: i32, notified: bool) -> (reply: SkelReply)
        requires
            old(self)@.wf(),
            old(self)@.tick + if !notified && old(self)@.info.contains_key(target_id) && old(self)@.info[target_id].life - damage <= 0 {
                2int
            } else {
                1int
            } <= u64::MAX,
            !notified && old(self)@.info.contains_key(target_id) ==> i32::MIN <= old(self)@.info[target_id].life - damage <= i32::MAX,
        ensures
            final(self)@.wf(),
            strike_post(old(self)@, final(self)@, request_id, attacker_id, target_id, damage, notified, reply),
    {
        let ghost before = self@.info;
        let (applied, died) = if !notified { self.apply_damage_direct(target_id, damage) } else { (damage, false) };
        let mut msg = numbered_line("🗡️  [ORB] #", attacker_id, " → #");
        msg.append(shown_number_text(target_id).as_str());
        msg.append(" dmg=");
        msg.append(signed_text(applied as i64).as_str());
        let ghost e0 = self@.events;
        proof {
            lemma_logs_one(e0, msg, EVENT_CAP as nat);
        }
        self.log(msg);
        if died {
            let ghost mid = self@.info;
            let ghost e1 = self@.events;
            self.remove_client(target_id);
            assert(mid.remove(target_id) =~= before.remove(target_id));
            proof {
                lemma_logs_then_one(e0, e1, seq![msg@], self@.events, removal_line(target_id), EVENT_CAP as nat);
                assert(seq![msg@].push(removal_line(target_id)) =~= seq![msg@, removal_line(target_id)]);
            }
        }
        SkelReply::AttackExecuted { request_id, target_id, damage_applied: applied, target_died: died }
    }
}

impl ServerState {
    /// Follows an order of the coordinator and gives the answer to send back,
    /// if any: a zone assignment is taken (no answer), a handover is absorbed
    /// and acknowledged, a ping is answered with a pong carrying its tick.
    /// Zone changes are logged.
    pub fn on_coordinator(&mut self, msg: CoordToServer) -> (answer: Option<ServerToCoord>)
        requires
            old(self)@.wf(),
            old(self)@.tick < u64::MAX,
            msg matches CoordToServer::AbsorbZone { clients, .. } ==> transfers_on_board(clients@),
        ensures
            final(self)@.wf(),
            match msg {
                CoordToServer::AssignZone { zone } => {
                    &&& zone_assigned(old(self)@, final(self)@, zone)
                    &&& answer is None
                },
                CoordToServer::AbsorbZone { zone, clients } => {
                    &&& final(self)@.zone == merged(old(self)@.zone, zone)
                    &&& final(self)@.board == absorbed_board(old(self)@.board, clients@)
                    &&& exists|a: String| a@ == "idle"@ && final(self)@.info == absorbed_info(old(self)@.info, clients@, a)
                    &&& final(self)@.server_id == old(self)@.server_id
                    &&& logs_lines(old(self)@.events, final(self)@.events, seq![absorb_line(clients@.len())], EVENT_CAP as nat)
                    &&& final(self)@.tick == old(self)@.tick + 1
                    &&& final(self)@.next_id == old(self)@.next_id
                    &&& answer == Some(ServerToCoord::ReadyToAbsorb { server_id: old(self)@.server_id })
                },
                CoordToServer::Ping { tick } => {
                    &&& final(self)@ == old(self)@
                    &&& answer == Some(ServerToCoord::Pong { server_id: old(self)@.server_id, tick })
                },
            },
    {
        match msg {
            CoordToServer::AssignZone { zone } => {
                self.assign_zone(zone);
                None
            },
            CoordToServer::AbsorbZone { zone, clients } => {
                self.absorb_zone(zone, clients);
                Some(ServerToCoord::ReadyToAbsorb { server_id: self.server_id })
            },
            CoordToServer::Ping { tick } => Some(ServerToCoord::Pong { server_id: self.server_id, tick }),
        }
    }
}

/// The request to the broker for an attack on a cell outside this zone, with
/// an id taken from the clock.
pub fn cross_zone_request(attacker_id: u32, target_row: usize, target_col: usize, damage: i32) -> (req: OrbRequest)
    ensures
        req matches OrbRequest::InvokeAttack { request_id, attacker_id: a, target_row: r, target_col: c, damage: d }
            && request_id < 1_000_000_000 && a == attacker_id && r == target_row && c == target_col && d == damage,
{
    let request_id = clock_subsec_nanos() as u64;
    OrbRequest::InvokeAttack { request_id, attacker_id, target_row, target_col, damage }
}

/// The entry a zone server writes when hero `id` is seated on `(r, c)`.
pub open spec fn zone_entry_line(id: u32, r: usize, c: usize) -> Seq<char> {
    cell_text("⚡ Cliente "@ + shown_number(id) + " en "@, r as nat, c as nat, ""@)
}

/// The entry a zone server writes when hero `id` took `damage` from hero
/// `from` and has `life` out of `max_life` left.
pub open spec fn zone_hit_line(id: u32, damage: i32, from: u32, life: int, max_life: i32) -> Seq<char> {
    "💢 c"@ + shown_number(id) + " recibió "@ + signed_decimal(damage as int) + " de "@ + shown_number(from) + " → "@
        + signed_decimal(life) + "/"@ + signed_decimal(max_life as int)
}

/// The entry a zone server writes when hero `id` moved to `(r, c)`.
pub open spec fn zone_move_line(id: u32, r: usize, c: usize) -> Seq<char> {
    cell_text("🚶 c"@ + shown_number(id) + " → "@, r as nat, c as nat, ""@)
}

/// The entry written when hero `id` struck hero `target` of the same zone.
pub open spec fn local_attack_line(id: u32, target: u32, damage: i32) -> Seq<char> {
    "⚔️  [local] c"@ + shown_number(id) + " → c"@ + shown_number(target) + " dmg="@ + signed_decimal(damage as int)
}

/// The entry a zone server writes when hero `id` drank a potion.
pub open spec fn zone_potion_line(id: u32) -> Seq<char> {
    "🧪 c"@ + shown_number(id) + " usó poción"@
}

/// The entry written when the skeleton applied `applied` points of hero
/// `attacker`'s blow to hero `target`.
pub open spec fn orb_hit_line(attacker: u32, target: u32, applied: i32) -> Seq<char> {
    "🗡️  [ORB] #"@ + shown_number(attacker) + " → #"@ + shown_number(target) + " dmg="@ + signed_decimal(applied as int)
}

/// The entry written when a server takes charge of `zone`.
pub open spec fn zone_line(zone: Zone) -> Seq<char> {
    cell_text(
        cell_text("📦 Zona: "@, zone.row_start as nat, zone.col_start as nat, "→"@),
        zone.row_end as nat,
        zone.col_end as nat,
        ""@,
    )
}

/// The entry written when a server takes over `n` heroes.
pub open spec fn absorb_line(n: nat) -> Seq<char> {
    "⬆️  Absorbiendo "@ + decimal(n) + " clientes"@
}

/// The state after a server took charge of `zone`: nothing else changes but
/// the log and the tick.
pub open spec fn zone_assigned(old: ZoneServerView, new: ZoneServerView, zone: Zone) -> bool {
    &&& new.zone == zone
    &&& new.board == old.board
    &&& new.info == old.info
    &&& new.server_id == old.server_id
    &&& logs_lines(old.events, new.events, seq![zone_line(zone)], EVENT_CAP as nat)
    &&& new.tick == old.tick + 1
    &&& new.next_id == old.next_id
}

/// The state after hero `id` was offered `cell` with `max_life` points.
pub open spec fn zone_seat_post(old: ZoneServerView, new: ZoneServerView, id: u32, cell: Option<(usize, usize)>, max_life: i32, reply: ServerPacket) -> bool {
    match cell {
        Some(p) => {
            &&& new.board.cells == old.board.set(p.0 as int, p.1 as int, Some(id))
            &&& new.board.positions == old.board.positions.insert(id, p)
            &&& new.info.dom() == old.info.dom().insert(id)
            &&& forall|k: u32| k != id && #[trigger] old.info.contains_key(k) ==> new.info[k] == old.info[k]
            &&& new.info[id].id == id
            &&& new.info[id].row == p.0
            &&& new.info[id].col == p.1
            &&& new.info[id].life == max_life
            &&& new.info[id].max_life == max_life
            &&& new.info[id].potions == 3
            &&& new.info[id].action@ == "idle"@
            &&& new.server_id == old.server_id
            &&& new.zone == old.zone
            &&& logs_lines(old.events, new.events, seq![zone_entry_line(id, p.0, p.1)], EVENT_CAP as nat)
            &&& new.tick == old.tick + 1
            &&& new.next_id == old.next_id
            &&& reply == ServerPacket::Welcome { client_id: id, row: p.0, col: p.1 }
        },
        None => {
            &&& new == old
            &&& reply matches ServerPacket::Error { msg } && msg@ == "Zona llena"@
        },
    }
}

/// The outcome of a move request of hero `id` to `(r, c)`.
pub open spec fn zone_move_post(old: ZoneServerView, new: ZoneServerView, id: u32, r: usize, c: usize, reply: ServerPacket) -> bool {
    if !old.board.is_free(r as int, c as int) {
        &&& new == old
        &&& reply matches ServerPacket::MoveDenied { reason } && reason@ == "Casilla no disponible"@
    } else if !old.zone.spec_contains(r as int, c as int) {
        &&& new == old
        &&& reply matches ServerPacket::MoveDenied { reason } && reason@ == "Fuera de zona"@
    } else {
        &&& new.board == relocated(old.board, id, r as int, c as int)
        &&& updated(old.info, id, Some("move"@), Some((r, c)), new.info)
        &&& new.server_id == old.server_id
        &&& new.zone == old.zone
        &&& logs_lines(old.events, new.events, seq![zone_move_line(id, r, c)], EVENT_CAP as nat)
        &&& new.tick == old.tick + 2
        &&& new.next_id == old.next_id
        &&& reply == ServerPacket::MoveOk { row: r, col: c }
    }
}

/// The outcome of an attack of hero `id` on cell `(r, c)`: a hero of the
/// zone standing there gets the damage handed to it, otherwise the attack is
/// for the broker.
pub open spec fn zone_attack_post(old: ZoneServerView, new: ZoneServerView, id: u32, r: usize, c: usize, damage: i32, out: Outcome) -> bool {
    let in_zone = r < BOARD_SIZE && c < BOARD_SIZE && old.zone.spec_contains(r as int, c as int);
    &&& new.board == old.board
    &&& updated(old.info, id, Some("attack"@), None, new.info)
    &&& new.server_id == old.server_id
    &&& new.zone == old.zone
    &&& new.next_id == old.next_id
    &&& if in_zone && old.board.at(r as int, c as int) is Some {
        let tid = old.board.at(r as int, c as int)->0;
        &&& logs_lines(old.events, new.events, seq![local_attack_line(id, tid, damage)], EVENT_CAP as nat)
        &&& new.tick == old.tick + 2
        &&& out == Outcome::Deliver {
            target: old.board.at(r as int, c as int)->0,
            packet: ServerPacket::TakeDamage { damage, from_id: id },
        }
    } else {
        &&& new.events == old.events
        &&& new.tick == old.tick
        &&& out == Outcome::CrossZone { attacker_id: id, target_row: r, target_col: c, damage }
    }
}

/// The outcome of hero `id` drinking a potion: one potion fewer (never below
/// zero) and 50 life more, up to its maximum.
pub open spec fn zone_potion_post(old: ZoneServerView, new: ZoneServerView, id: u32) -> bool {
    &&& new.board == old.board
    &&& new.server_id == old.server_id
    &&& new.zone == old.zone
    &&& logs_lines(old.events, new.events, seq![zone_potion_line(id)], EVENT_CAP as nat)
    &&& new.tick == old.tick + 2
    &&& new.next_id == old.next_id
    &&& if old.info.contains_key(id) {
        let o = old.info[id];
        let n = new.info[id];
        &&& new.info.dom() == old.info.dom()
        &&& forall|k: u32| k != id && #[trigger] old.info.contains_key(k) ==> new.info[k] == old.info[k]
        &&& n.id == o.id
        &&& n.row == o.row
        &&& n.col == o.col
        &&& n.max_life == o.max_life
        &&& n.potions == if o.potions > 0 { (o.potions - 1) as u32 } else { 0 }
        &&& n.life == if o.life + 50 < o.max_life { o.life + 50 } else { o.max_life as int }
        &&& n.action@ == "potion"@
    } else {
        new.info == old.info
    }
}

/// The outcome of hero `id` taking `damage` points from hero `from`: it dies
/// when its life falls to zero or below, and then leaves the board.
pub open spec fn zone_damage_post(old: ZoneServerView, new: ZoneServerView, id: u32, damage: i32, from: u32, dead: bool) -> bool {
    if old.info.contains_key(id) {
        let o = old.info[id];
        let life = o.life - damage;
        &&& dead == (life <= 0)
        &&& if dead {
            &&& new.board == taken(old.board, id)
            &&& new.info == old.info.remove(id)
        } else {
            &&& new.board == old.board
            &&& new.info == old.info.insert(id, ClientInfo { life: life as i32, ..o })
        }
        &&& new.server_id == old.server_id
        &&& new.zone == old.zone
        &&& logs_lines(
            old.events,
            new.events,
            if dead {
                seq![zone_hit_line(id, damage, from, life, o.max_life), removal_line(id)]
            } else {
                seq![zone_hit_line(id, damage, from, life, o.max_life)]
            },
            EVENT_CAP as nat,
        )
        &&& new.tick == old.tick + if dead { 3int } else { 2int }
        &&& new.next_id == old.next_id
    } else {
        &&& !dead
        &&& new == old
    }
}

/// The outcome of the skeleton hitting hero `target` with `damage` points of
/// hero `attacker`'s blow: applied here unless the hero's own connection was
/// handed it (`notified`); a hero without a record takes nothing. The hit is
/// logged, and a hero killed by it leaves the board.
pub open spec fn strike_post(old: ZoneServerView, new: ZoneServerView, request_id: u64, attacker: u32, target: u32, damage: i32, notified: bool, reply: SkelReply) -> bool {
    let hits = !notified && old.info.contains_key(target);
    let applied: i32 = if notified || hits { damage } else { 0 };
    let died = hits && old.info[target].life - damage <= 0;
    &&& if hits {
        let o = old.info[target];
        let life = o.life - damage;
        if life <= 0 {
            &&& new.board == taken(old.board, target)
            &&& new.info == old.info.remove(target)
        } else {
            &&& new.board == old.board
            &&& new.info == old.info.insert(target, ClientInfo { life: life as i32, ..o })
        }
    } else {
        &&& new.board == old.board
        &&& new.info == old.info
    }
    &&& new.server_id == old.server_id
    &&& new.zone == old.zone
    &&& logs_lines(
        old.events,
        new.events,
        if died {
            seq![orb_hit_line(attacker, target, applied), removal_line(target)]
        } else {
            seq![orb_hit_line(attacker, target, applied)]
        },
        EVENT_CAP as nat,
    )
    &&& new.tick == old.tick + if died { 2int } else { 1int }
    &&& new.next_id == old.next_id
    &&& reply == SkelReply::AttackExecuted { request_id, target_id: target, damage_applied: applied, target_died: died }
}

/// How far handling `pkt` from hero `id` advances the tick: a move that
/// is made and a blow on a hero of the zone log and tick once more each, as
/// does a potion; a hero's farewell is logged; anything else leaves the tick.
pub open spec fn zone_packet_ticks(s: ZoneServerView, id: u32, pkt: ClientPacket) -> int {
    match pkt {
        ClientPacket::Move { row, col, .. } => if s.board.is_free(row as int, col as int) && s.zone.spec_contains(row as int, col as int) {
            2
        } else {
            0
        },
        ClientPacket::Attack { target_row, target_col, .. } => if target_row < BOARD_SIZE && target_col < BOARD_SIZE
            && s.zone.spec_contains(target_row as int, target_col as int) && s.board.at(target_row as int, target_col as int) is Some {
            2
        } else {
            0
        },
        ClientPacket::UsePotion { .. } => 2,
        ClientPacket::Dead { .. } => 1,
        ClientPacket::QueryNeighbors { .. } => 0,
    }
}

/// A packet that the zone server can handle without failing: a potion cannot
/// push life past the `i32` range.
pub open spec fn zone_packet_acceptable(s: ZoneServerView, id: u32, pkt: ClientPacket) -> bool {
    match pkt {
        ClientPacket::UsePotion { .. } => s.info.contains_key(id) ==> s.info[id].life + 50 <= i32::MAX,
        _ => true,
    }
}

/// The state and outcome after the zone server handled `pkt` from hero `id`.
pub open spec fn zone_handle_post(old: ZoneServerView, new: ZoneServerView, id: u32, pkt: ClientPacket, out: Outcome) -> bool {
    match pkt {
        ClientPacket::QueryNeighbors { .. } => {
            &&& new == old
            &&& out matches Outcome::Reply(ServerPacket::NeighborState { north, south, east, west }) && {
                let (r, c) = old.position_of(id);
                &&& describes(old.board, north, 0, r as int, c as int)
                &&& describes(old.board, south, 1, r as int, c as int)
                &&& describes(old.board, east, 2, r as int, c as int)
                &&& describes(old.board, west, 3, r as int, c as int)
            }
        },
        ClientPacket::Move { row, col, .. } => out matches Outcome::Reply(reply) && zone_move_post(old, new, id, row, col, reply),
        ClientPacket::Attack { target_row, target_col, damage, .. } => zone_attack_post(old, new, id, target_row, target_col, damage, out),
        ClientPacket::UsePotion { .. } => out is Nothing && zone_potion_post(old, new, id),
        ClientPacket::Dead { .. } => {
            &&& out is Leave
            &&& new.board == taken(old.board, id)
            &&& new.info == old.info.remove(id)
            &&& new.server_id == old.server_id
            &&& new.zone == old.zone
            &&& logs_lines(old.events, new.events, seq![removal_line(id)], EVENT_CAP as nat)
            &&& new.tick == old.tick + 1
            &&& new.next_id == old.next_id
        },
    }
}

/// Whatever packet a hero sends, the board of a zone server and its recorded
/// positions keep agreeing.
pub proof fn lemma_zone_handle_keeps_board_consistent(old: ZoneServerView, new: ZoneServerView, id: u32, pkt: ClientPacket, out: Outcome)
    requires
        old.wf(),
        old.board.consistent(),
        zone_handle_post(old, new, id, pkt, out),
    ensures
        new.board.consistent(),
{
    match pkt {
        ClientPacket::Move { row, col, .. } => {
            if old.board.is_free(row as int, col as int) && old.zone.spec_contains(row as int, col as int) {
                lemma_relocated_consistent(old.board, id, row, col);
            }
        },
        ClientPacket::Dead { .. } => {
            lemma_taken_consistent(old.board, id);
        },
        _ => {},
    }
}

/// A hit from the skeleton keeps the board and the recorded positions in
/// agreement, also when the hero dies of it.
pub proof fn lemma_strike_keeps_board_consistent(old: ZoneServerView, new: ZoneServerView, request_id: u64, attacker: u32, target: u32, damage: i32, notified: bool, reply: SkelReply)
    requires
        old.wf(),
        old.board.consistent(),
        strike_post(old, new, request_id, attacker, target, damage, notified, reply),
    ensures
        new.board.consistent(),
{
    lemma_taken_consistent(old.board, target);
}

/// Damage handed to a hero keeps the board and the recorded positions in
/// agreement, also when the hero dies of it.
pub proof fn lemma_zone_damage_keeps_board_consistent(old: ZoneServerView, new: ZoneServerView, id: u32, damage: i32, from: u32, dead: bool)
    requires
        old.wf(),
        old.board.consistent(),
        zone_damage_post(old, new, id, damage, from, dead),
    ensures
        new.board.consistent(),
{
    lemma_taken_consistent(old.board, id);
}

/// Seating a hero that is not on the board yet on a free cell keeps the board
/// and the recorded positions in agreement.
pub proof fn lemma_zone_seat_keeps_board_consistent(old: ZoneServerView, new: ZoneServerView, id: u32, cell: Option<(usize, usize)>, max_life: i32, reply: ServerPacket)
    requires
        old.wf(),
        old.board.consistent(),
        !old.board.positions.contains_key(id),
        cell matches Some(p) ==> old.board.is_free(p.0 as int, p.1 as int),
        zone_seat_post(old, new, id, cell, max_life, reply),
    ensures
        new.board.consistent(),
{
    if let Some(p) = cell {
        lemma_relocated_consistent(old.board, id, p.0, p.1);
        assert(new.board == relocated(old.board, id, p.0 as int, p.1 as int));
    }
}

/// Every hero with a record stands somewhere on the zone server's board.
pub open spec fn zone_records_placed(v: ZoneServerView) -> bool {
    forall|id: u32| #[trigger] v.info.contains_key(id) ==> v.board.positions.contains_key(id)
}

/// Whatever packet a hero sends, every hero with a record keeps a position.
pub proof fn lemma_zone_handle_keeps_records_placed(old: ZoneServerView, new: ZoneServerView, id: u32, pkt: ClientPacket, out: Outcome)
    requires
        zone_records_placed(old),
        zone_handle_post(old, new, id, pkt, out),
    ensures
        zone_records_placed(new),
{
    assert forall|k: u32| #[trigger] new.info.contains_key(k) implies new.board.positions.contains_key(k) by {
        assert(old.info.contains_key(k));
    }
}

/// Seating a hero gives it a record and a position together.
pub proof fn lemma_zone_seat_keeps_records_placed(old: ZoneServerView, new: ZoneServerView, id: u32, cell: Option<(usize, usize)>, max_life: i32, reply: ServerPacket)
    requires
        zone_records_placed(old),
        zone_seat_post(old, new, id, cell, max_life, reply),
    ensures
        zone_records_placed(new),
{
    assert forall|k: u32| #[trigger] new.info.contains_key(k) implies new.board.positions.contains_key(k) by {
        if k != id {
            assert(old.info.contains_key(k));
        }
    }
}

/// A hit handed to a hero keeps every recorded hero on the board; one that
/// dies loses its record and its position together.
pub proof fn lemma_zone_damage_keeps_records_placed(old: ZoneServerView, new: ZoneServerView, id: u32, damage: i32, from: u32, dead: bool)
    requires
        zone_records_placed(old),
        zone_damage_post(old, new, id, damage, from, dead),
    ensures
        zone_records_placed(new),
{
    assert forall|k: u32| #[trigger] new.info.contains_key(k) implies new.board.positions.contains_key(k) by {
        assert(old.info.contains_key(k));
    }
}

/// A hit from the skeleton keeps every recorded hero on the board; one that
/// dies loses its record and its position together.
pub proof fn lemma_strike_keeps_records_placed(old: ZoneServerView, new: ZoneServerView, request_id: u64, attacker: u32, target: u32, damage: i32, notified: bool, reply: SkelReply)
    requires
        zone_records_placed(old),
        strike_post(old, new, request_id, attacker, target, damage, notified, reply),
    ensures
        zone_records_placed(new),
{
    assert forall|k: u32| #[trigger] new.info.contains_key(k) implies new.board.positions.contains_key(k) by {
        assert(old.info.contains_key(k));
    }
}

/// A hero that a zone server lets move ends inside that server's zone.
pub proof fn lemma_moves_stay_in_zone(old: ZoneServerView, new: ZoneServerView, id: u32, r: usize, c: usize, reply: ServerPacket)
    requires
        zone_move_post(old, new, id, r, c, reply),
        reply is MoveOk,
    ensures
        old.zone.spec_contains(r as int, c as int),
        new.board.positions[id] == (r, c),
{
}

} // verus!
