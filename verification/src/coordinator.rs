use std::collections::HashMap;
use vstd::prelude::*;
use vstd::std_specs::iter::IteratorSpec;
use vstd::string::*;
use crate::arena::{
    appended, numbered_line, shown_number, shown_number_text, lemma_logs_more, lemma_logs_one, logged, logs_lines,
};
use crate::catalog::count_text;
use crate::orb::{decimal, signed_decimal, signed_text};
use crate::protocol::text;
use crate::zone_server::merged;
use crate::zones::{BOARD_SIZE, ClientInfo, ClientTransfer, Zone, ZoneSnapshot, copy_strings};

verus! {

broadcast use vstd::std_specs::hash::group_hash_axioms;

/// Rows that zone `i` of `n` gets: an equal share, one more for the first
/// `BOARD_SIZE % n` zones.
pub open spec fn zone_rows(n: int, i: int) -> int {
    BOARD_SIZE as int / n + if i < BOARD_SIZE as int % n { 1int } else { 0int }
}

/// First row of zone `i` of `n`.
pub open spec fn zone_start(n: int, i: int) -> int {
    i * (BOARD_SIZE as int / n) + if i < BOARD_SIZE as int % n { i } else { BOARD_SIZE as int % n }
}

/// Zone `i` when the board is split among `n` servers: consecutive bands of
/// whole rows.
pub open spec fn split_zone(n: int, i: int) -> Zone {
    Zone {
        row_start: zone_start(n, i) as usize,
        row_end: (zone_start(n, i) + zone_rows(n, i) - 1) as usize,
        col_start: 0,
        col_end: (BOARD_SIZE - 1) as usize,
    }
}

proof fn lemma_zone_start_step(n: int, i: int)
    requires
        n >= 1,
        0 <= i,
    ensures
        zone_start(n, i + 1) == zone_start(n, i) + zone_rows(n, i),
{
    assert((i + 1) * (BOARD_SIZE as int / n) == i * (BOARD_SIZE as int / n) + BOARD_SIZE as int / n) by (nonlinear_arith);
}

proof fn lemma_zone_start_bounds(n: int, i: int)
    requires
        n >= 1,
        0 <= i <= n,
    ensures
        0 <= zone_start(n, i) <= BOARD_SIZE,
        zone_start(n, n) == BOARD_SIZE,
{
    let q = BOARD_SIZE as int / n;
    let m = BOARD_SIZE as int % n;
    assert(n * q + m == BOARD_SIZE as int) by (nonlinear_arith)
        requires
            n >= 1,
            q == BOARD_SIZE as int / n,
            m == BOARD_SIZE as int % n;
    assert(0 <= i * q <= n * q) by (nonlinear_arith)
        requires
            0 <= i <= n,
            q >= 0;
    assert(0 <= m < n);
}

proof fn lemma_zone_nonempty_prefix(n: int, i: int)
    requires
        n >= 1,
        0 <= i,
    ensures
        zone_start(n, i) + zone_rows(n, i) >= 1,
{
    let q = BOARD_SIZE as int / n;
    let m = BOARD_SIZE as int % n;
    assert(n * q + m == BOARD_SIZE as int && 0 <= m < n && q >= 0) by (nonlinear_arith)
        requires
            n >= 1,
            q == BOARD_SIZE as int / n,
            m == BOARD_SIZE as int % n;
    if q == 0 {
        assert(n * q == 0) by (nonlinear_arith)
            requires
                q == 0;
        assert(m == BOARD_SIZE as int);
    } else {
        assert(i * q >= 0) by (nonlinear_arith)
            requires
                i >= 0,
                q >= 1;
    }
}

/// Splits the board into `n` bands of whole rows, top to bottom.
pub fn compute_zones(n: usize) -> (zones: Vec<Zone>)
    ensures
        zones@.len() == n,
        forall|i: int| 0 <= i < n ==> #[trigger] zones@[i] == split_zone(n as int, i),
{
    let mut zones: Vec<Zone> = Vec::new();
    if n == 0 {
        return zones;
    }
    let rows_per = BOARD_SIZE / n;
    let extra = BOARD_SIZE % n;
    let mut start: usize = 0;
    let mut i: usize = 0;
    while i < n
        invariant
            n >= 1,
            i <= n,
            rows_per == BOARD_SIZE as int / n as int,
            extra == BOARD_SIZE as int % n as int,
            start == zone_start(n as int, i as int),
            zones@.len() == i,
            forall|j: int| 0 <= j < i ==> #[trigger] zones@[j] == split_zone(n as int, j),
        decreases n - i,
    {
        proof {
            lemma_zone_start_bounds(n as int, i as int);
            lemma_zone_start_step(n as int, i as int);
            lemma_zone_start_bounds(n as int, i as int + 1);
            lemma_zone_nonempty_prefix(n as int, i as int);
        }
        let rows = rows_per + if i < extra { 1 } else { 0 };
        zones.push(Zone { row_start: start, row_end: start + rows - 1, col_start: 0, col_end: BOARD_SIZE - 1 });
        start = start + rows;
        i = i + 1;
    }
    zones
}

/// For one to `BOARD_SIZE` servers the zones cover the board exactly: they
/// are non-empty bands of whole rows, from the first row to the last, each
/// starting where the previous one ended, and their heights differ by at
/// most one.
pub proof fn lemma_split_zones_tile_board(n: int)
    requires
        1 <= n <= BOARD_SIZE,
    ensures
        split_zone(n, 0).row_start == 0,
        split_zone(n, n - 1).row_end == BOARD_SIZE - 1,
        forall|i: int| 0 <= i < n ==> (#[trigger] split_zone(n, i)).on_board()
            && split_zone(n, i).col_start == 0 && split_zone(n, i).col_end == BOARD_SIZE - 1,
        forall|i: int| 0 <= i < n - 1 ==> #[trigger] split_zone(n, i + 1).row_start == split_zone(n, i).row_end + 1,
        forall|i: int, j: int| 0 <= i < n && 0 <= j < n ==> #[trigger] zone_rows(n, i) <= #[trigger] zone_rows(n, j) + 1,
{
    assert(BOARD_SIZE as int / n >= 1) by (nonlinear_arith)
        requires
            1 <= n <= BOARD_SIZE as int;
    lemma_zone_start_bounds(n, n);
    assert forall|i: int| 0 <= i < n implies (#[trigger] split_zone(n, i)).on_board()
        && split_zone(n, i).col_start == 0 && split_zone(n, i).col_end == BOARD_SIZE - 1 by {
        lemma_zone_start_step(n, i);
        lemma_zone_start_bounds(n, i);
        lemma_zone_start_bounds(n, i + 1);
    }
    assert forall|i: int| 0 <= i < n - 1 implies #[trigger] split_zone(n, i + 1).row_start == split_zone(n, i).row_end + 1 by {
        lemma_zone_start_step(n, i);
        lemma_zone_start_bounds(n, i);
        lemma_zone_start_bounds(n, i + 1);
    }
    lemma_zone_start_step(n, n - 1);
    lemma_zone_start_bounds(n, n - 1);
}

/// The entry written when server `id` announced its addresses.
pub open spec fn register_line(id: u32, tcp: Seq<char>, ws: Seq<char>) -> Seq<char> {
    "🟢 Servidor "@ + shown_number(id) + " → TCP:"@ + tcp + " WS:"@ + ws
}

/// The entry written when the board was split among `n` servers.
pub open spec fn rebalance_line(n: nat) -> Seq<char> {
    "🔄 Rebalanceo: "@ + decimal(n) + " servidores"@
}

/// The entry written when server `id` went away.
pub open spec fn departure_line(id: u32) -> Seq<char> {
    "🔴 Servidor "@ + shown_number(id) + " desconectado"@
}

/// The entry written when no server is left.
pub open spec fn none_left_line() -> Seq<char> {
    "⚠️  Sin servidores"@
}

/// The entry written when server `target` took over the zone of server `id`.
pub open spec fn handover_line(id: u32, target: u32) -> Seq<char> {
    "↔️  Zona "@ + shown_number(id) + " → Servidor "@ + shown_number(target)
}

/// The entry written for an attack that the broker routed.
pub open spec fn orb_event_line(attacker: u32, target: u32, damage: i32, died: bool, cross: bool) -> Seq<char> {
    "🗡️  [ORB] #"@ + shown_number(attacker) + " → #"@ + shown_number(target) + " dmg="@ + signed_decimal(damage as int)
        + (if died { " 💀"@ } else { Seq::<char>::empty() }) + (if cross { " (cross)"@ } else { " (local)"@ })
}

/// The broker's counters after one more routed attack.
pub open spec fn counted(s: OrbStats, cross: bool) -> OrbStats {
    OrbStats {
        total_invocations: (s.total_invocations + 1) as u64,
        cross_zone_hits: if cross { (s.cross_zone_hits + 1) as u64 } else { s.cross_zone_hits },
        local_hits: if cross { s.local_hits } else { (s.local_hits + 1) as u64 },
        misses: s.misses,
    }
}

/// Every routed attack is counted once, as a cross-zone or as a local hit:
/// when the total is the sum of the two before an attack, it still is after
/// it.
pub proof fn lemma_orb_counts_add_up(s: OrbStats, cross: bool)
    requires
        s.total_invocations == s.cross_zone_hits + s.local_hits,
        s.total_invocations < u64::MAX,
    ensures
        counted(s, cross).total_invocations == counted(s, cross).cross_zone_hits + counted(s, cross).local_hits,
{
}

/// How long the coordinator lets pass between two pings of a server, in
/// nanoseconds.
pub const PING_INTERVAL_NANOS: u128 = 2_000_000_000;

/// How long a server may stay without answering a ping before it counts as
/// gone, in nanoseconds.
pub const PONG_TIMEOUT_NANOS: u128 = 6_000_000_000;

/// What the coordinator's link to a server does next about pings.
pub enum Heartbeat {
    /// Nothing yet.
    Wait,
    /// Send the ping numbered `tick`.
    Ping { tick: u64 },
}

/// The link's next move when the last ping went out `since_ping_nanos` ago
/// and `ping_tick` pings were sent: once more than the interval has passed,
/// the next ping goes out with the next number.
pub fn heartbeat(since_ping_nanos: u128, ping_tick: u64) -> (h: Heartbeat)
    requires
        since_ping_nanos > PING_INTERVAL_NANOS ==> ping_tick < u64::MAX,
    ensures
        since_ping_nanos > PING_INTERVAL_NANOS ==> h == (Heartbeat::Ping { tick: (ping_tick + 1) as u64 }),
        since_ping_nanos <= PING_INTERVAL_NANOS ==> h is Wait,
{
    if since_ping_nanos > PING_INTERVAL_NANOS {
        Heartbeat::Ping { tick: ping_tick + 1 }
    } else {
        Heartbeat::Wait
    }
}

/// After a ping went out, whether the server counts as gone: it never
/// answered one (`None`), or its last answer came more than the timeout
/// ago.
pub fn link_lost(since_pong_nanos: Option<u128>) -> (lost: bool)
    ensures
        lost == match since_pong_nanos {
            Some(n) => n > PONG_TIMEOUT_NANOS,
            None => true,
        },
{
    match since_pong_nanos {
        Some(n) => n > PONG_TIMEOUT_NANOS,
        None => true,
    }
}

/// Most events the coordinator keeps in its log.
pub const COORD_EVENT_CAP: usize = 100;

/// Most attack events of the broker that the coordinator keeps.
pub const ORB_EVENT_CAP: usize = 30;

/// An attack that the broker routed, as the coordinator records it.
pub struct OrbEvent {
    pub tick: u64,
    pub attacker: u32,
    pub target: u32,
    pub damage: i32,
    pub target_row: usize,
    pub target_col: usize,
    pub died: bool,
    pub routing: String,
}

impl OrbEvent {
    /// A copy of this event.
    pub fn duplicate(&self) -> (r: OrbEvent)
        ensures
            r == *self,
    {
        OrbEvent {
            tick: self.tick,
            attacker: self.attacker,
            target: self.target,
            damage: self.damage,
            target_row: self.target_row,
            target_col: self.target_col,
            died: self.died,
            routing: self.routing.clone(),
        }
    }
}

/// Counters of the attacks that the broker routed.
#[derive(Clone, Copy, PartialEq, Eq, Structural)]
pub struct OrbStats {
    pub total_invocations: u64,
    pub cross_zone_hits: u64,
    pub local_hits: u64,
    pub misses: u64,
}

/// What the front end sees of a zone server.
pub struct ServerMeta {
    pub id: u32,
    pub zone: Zone,
    pub alive: bool,
    pub client_count: usize,
    pub ws_addr: String,
    pub tcp_addr: String,
}

/// The whole game as the coordinator shows it to the front end.
pub struct GlobalSnapshot {
    pub board: Vec<Vec<Option<ClientInfo>>>,
    pub servers: Vec<ServerMeta>,
    pub events: Vec<String>,
    pub orb_events: Vec<OrbEvent>,
    pub orb_stats: OrbStats,
    pub tick: u64,
}

/// What the coordinator knows of a connected zone server.
pub struct ServerEntry {
    pub id: u32,
    pub zone: Zone,
    pub tcp_addr: String,
    pub ws_addr: String,
    pub client_count: usize,
}

impl ServerEntry {
    /// A copy of this entry with another zone.
    pub fn with_zone(&self, zone: Zone) -> (r: ServerEntry)
        ensures
            r == (ServerEntry { zone, ..*self }),
    {
        ServerEntry {
            id: self.id,
            zone,
            tcp_addr: self.tcp_addr.clone(),
            ws_addr: self.ws_addr.clone(),
            client_count: self.client_count,
        }
    }
}

/// The coordinator's state: the connected zone servers, the merged board,
/// its log and what it heard from the broker.
pub struct CoordState {
    servers: HashMap<u32, ServerEntry>,
    board: Vec<Vec<Option<ClientInfo>>>,
    events: Vec<String>,
    orb_events: Vec<OrbEvent>,
    orb_stats: OrbStats,
    tick: u64,
    next_srv: u32,
}

/// The mathematical content of a [`CoordState`].
pub struct CoordView {
    pub servers: Map<u32, ServerEntry>,
    pub board: Seq<Seq<Option<ClientInfo>>>,
    pub events: Seq<String>,
    pub orb_events: Seq<OrbEvent>,
    pub orb_stats: OrbStats,
    pub tick: u64,
    pub next_srv: u32,
}

impl CoordView {
    pub open spec fn wf(self) -> bool {
        &&& self.board.len() == BOARD_SIZE
        &&& forall|r: int| 0 <= r < BOARD_SIZE ==> (#[trigger] self.board[r]).len() == BOARD_SIZE
        &&& self.events.len() <= COORD_EVENT_CAP
        &&& self.orb_events.len() <= ORB_EVENT_CAP
    }

    /// Every server is in charge of a non-empty zone on the board.
    pub open spec fn zones_on_board(self) -> bool {
        forall|k: u32| #[trigger] self.servers.contains_key(k) ==> self.servers[k].zone.on_board()
    }
}

impl View for CoordState {
    type V = CoordView;

    closed spec fn view(&self) -> CoordView {
        CoordView {
            servers: self.servers@,
            board: self.board@.map_values(|row: Vec<Option<ClientInfo>>| row@),
            events: self.events@,
            orb_events: self.orb_events@,
            orb_stats: self.orb_stats,
            tick: self.tick,
            next_srv: self.next_srv,
        }
    }
}

impl CoordState {
    /// No servers, an empty board, nothing heard yet.
    pub fn new() -> (s: CoordState)
        ensures
            s@.wf(),
            s@.servers.is_empty(),
            forall|r: int, c: int| 0 <= r < BOARD_SIZE && 0 <= c < BOARD_SIZE ==> #[trigger] s@.board[r][c] is None,
            s@.events.len() == 0,
            s@.orb_events.len() == 0,
            s@.orb_stats == (OrbStats { total_invocations: 0, cross_zone_hits: 0, local_hits: 0, misses: 0 }),
            s@.tick == 0,
            s@.next_srv == 0,
    {
        let mut board: Vec<Vec<Option<ClientInfo>>> = Vec::new();
        let mut i: usize = 0;
        while i < BOARD_SIZE
            invariant
                i <= BOARD_SIZE,
                board@.len() == i,
                forall|r: int| 0 <= r < i ==> (#[trigger] board@[r])@.len() == BOARD_SIZE,
                forall|r: int, c: int| 0 <= r < i && 0 <= c < BOARD_SIZE ==> #[trigger] board@[r]@[c] is None,
            decreases BOARD_SIZE - i,
        {
            let mut row: Vec<Option<ClientInfo>> = Vec::new();
            let mut j: usize = 0;
            while j < BOARD_SIZE
                invariant
                    j <= BOARD_SIZE,
                    row@.len() == j,
                    forall|c: int| 0 <= c < j ==> #[trigger] row@[c] is None,
                decreases BOARD_SIZE - j,
            {
                row.push(None);
                j = j + 1;
            }
            board.push(row);
            i = i + 1;
        }
        let s = CoordState {
            servers: HashMap::new(),
            board,
            events: Vec::new(),
            orb_events: Vec::new(),
            orb_stats: OrbStats { total_invocations: 0, cross_zone_hits: 0, local_hits: 0, misses: 0 },
            tick: 0,
            next_srv: 0,
        };
        assert forall|r: int| 0 <= r < BOARD_SIZE implies (#[trigger] s@.board[r]).len() == BOARD_SIZE by {
            assert(s@.board[r] == board@[r]@);
        }
        assert forall|r: int, c: int| 0 <= r < BOARD_SIZE && 0 <= c < BOARD_SIZE implies #[trigger] s@.board[r][c] is None by {
            assert(s@.board[r] == board@[r]@);
        }
        s
    }

    pub fn tick(&self) -> (t: u64)
        ensures
            t == self@.tick,
    {
        self.tick
    }

    /// The log, oldest entry first.
    pub fn events(&self) -> (e: &Vec<String>)
        ensures
            e@ == self@.events,
    {
        &self.events
    }

    pub fn server_count(&self) -> (n: usize)
        ensures
            n == self@.servers.dom().len(),
    {
        self.servers.len()
    }

    /// What the coordinator knows of server `id`.
    pub fn server_zone(&self, id: u32) -> (z: Option<Zone>)
        ensures
            match z {
                Some(zone) => self@.servers.contains_key(id) && self@.servers[id].zone == zone,
                None => !self@.servers.contains_key(id),
            },
    {
        match self.servers.get(&id) {
            Some(e) => Some(e.zone),
            None => None,
        }
    }

    /// What the merged board shows at `(r, c)`.
    pub fn cell(&self, r: usize, c: usize) -> (o: Option<ClientInfo>)
        requires
            self@.wf(),
            r < BOARD_SIZE,
            c < BOARD_SIZE,
        ensures
            o == self@.board[r as int][c as int],
    {
        assert(self@.board[r as int] == self.board@[r as int]@);
        match &self.board[r][c] {
            Some(ci) => Some(ci.duplicate()),
            None => None,
        }
    }

    /// Appends `msg` to the log, dropping the oldest entry past the cap, and
    /// advances the tick.
    pub fn log(&mut self, msg: String)
        requires
            old(self)@.wf(),
            old(self)@.tick < u64::MAX,
        ensures
            final(self)@.wf(),
            final(self)@ == (CoordView {
                events: logged(old(self)@.events, msg, COORD_EVENT_CAP as nat),
                tick: (old(self)@.tick + 1) as u64,
                ..old(self)@
            }),
    {
        self.events.push(msg);
        if self.events.len() > COORD_EVENT_CAP {
            self.events.remove(0);
        }
        self.tick = self.tick + 1;
    }

    /// Accepts a new zone server: it gets the next id, the first cell as a
    /// placeholder zone, no addresses yet and no heroes.
    pub fn add_server(&mut self) -> (id: u32)
        requires
            old(self)@.next_srv < u32::MAX,
        ensures
            id == old(self)@.next_srv,
            final(self)@.next_srv == id + 1,
            final(self)@.servers.dom() == old(self)@.servers.dom().insert(id),
            forall|k: u32| k != id && #[trigger] old(self)@.servers.contains_key(k) ==> final(self)@.servers[k] == old(self)@.servers[k],
            final(self)@.servers[id].id == id,
            final(self)@.servers[id].zone == (Zone { row_start: 0, row_end: 0, col_start: 0, col_end: 0 }),
            final(self)@.servers[id].tcp_addr@ == ""@,
            final(self)@.servers[id].ws_addr@ == ""@,
            final(self)@.servers[id].client_count == 0,
            final(self)@.board == old(self)@.board,
            final(self)@.events == old(self)@.events,
            final(self)@.orb_events == old(self)@.orb_events,
            final(self)@.orb_stats == old(self)@.orb_stats,
            final(self)@.tick == old(self)@.tick,
    {
        let id = self.next_srv;
        self.next_srv = self.next_srv + 1;
        self.servers.insert(
            id,
            ServerEntry {
                id,
                zone: Zone { row_start: 0, row_end: 0, col_start: 0, col_end: 0 },
                tcp_addr: text(""),
                ws_addr: text(""),
                client_count: 0,
            },
        );
        id
    }

    /// Logs the addresses that server `server_id` announced and records them
    /// (a server the coordinator does not know is left alone). The caller
    /// then rebalances.
    pub fn register(&mut self, server_id: u32, tcp_addr: String, ws_addr: String)
        requires
            old(self)@.wf(),
            old(self)@.tick < u64::MAX,
        ensures
            final(self)@.wf(),
            final(self)@.servers == if old(self)@.servers.contains_key(server_id) {
                old(self)@.servers.insert(server_id, ServerEntry { tcp_addr, ws_addr, ..old(self)@.servers[server_id] })
            } else {
                old(self)@.servers
            },
            logs_lines(old(self)@.events, final(self)@.events, seq![register_line(server_id, tcp_addr@, ws_addr@)], COORD_EVENT_CAP as nat),
            final(self)@.tick == old(self)@.tick + 1,
            final(self)@ == (CoordView { servers: final(self)@.servers, events: final(self)@.events, tick: final(self)@.tick, ..old(self)@ }),
    {
        let mut msg = numbered_line("🟢 Servidor ", server_id, " → TCP:");
        msg.append(tcp_addr.as_str());
        msg.append(" WS:");
        msg.append(ws_addr.as_str());
        proof {
            lemma_logs_one(self@.events, msg, COORD_EVENT_CAP as nat);
        }
        self.log(msg);
        match self.servers.get(&server_id) {
            Some(e) => {
                let entry = ServerEntry { id: e.id, zone: e.zone, tcp_addr, ws_addr, client_count: e.client_count };
                self.servers.insert(server_id, entry);
            },
            None => {},
        }
    }

    /// Splits the board anew among all servers, in the order in which the
    /// table of servers is walked, and returns the zone each one must be
    /// told; when there was at least one server, the rebalance is logged.
    pub fn rebalance(&mut self) -> (orders: Vec<(u32, Zone)>)
        requires
            old(self)@.wf(),
            old(self)@.tick < u64::MAX,
        ensures
            final(self)@.wf(),
            orders@.len() == old(self)@.servers.dom().len(),
            final(self)@.servers.dom() == old(self)@.servers.dom(),
            forall|i: int| 0 <= i < orders@.len() ==> old(self)@.servers.contains_key((#[trigger] orders@[i]).0),
            forall|i: int, j: int| 0 <= i < j < orders@.len() ==> (#[trigger] orders@[i]).0 != (#[trigger] orders@[j]).0,
            forall|i: int| 0 <= i < orders@.len() ==> (#[trigger] orders@[i]).1 == split_zone(orders@.len() as int, i),
            forall|i: int| 0 <= i < orders@.len() ==> final(self)@.servers[(#[trigger] orders@[i]).0]
                == (ServerEntry { zone: orders@[i].1, ..old(self)@.servers[orders@[i].0] }),
            if orders@.len() > 0 {
                &&& logs_lines(old(self)@.events, final(self)@.events, seq![rebalance_line(orders@.len())], COORD_EVENT_CAP as nat)
                &&& final(self)@.tick == old(self)@.tick + 1
            } else {
                &&& final(self)@.events == old(self)@.events
                &&& final(self)@.tick == old(self)@.tick
            },
            final(self)@ == (CoordView { servers: final(self)@.servers, events: final(self)@.events, tick: final(self)@.tick, ..old(self)@ }),
    {
        let ghost start = self@;
        let mut ids: Vec<u32> = Vec::new();
        let ghost seq = vstd::std_specs::hash::spec_keys_iter(&self.servers).remaining();
        for k in it: self.servers.keys()
            invariant
                it.seq() == seq,
                ids@.len() == it.index(),
                forall|i: int| 0 <= i < ids@.len() ==> #[trigger] ids@[i] == *seq[i],
        {
            ids.push(*k);
        }
        proof {
            assert(seq.unref().to_set() == self.servers@.dom());
            assert forall|i: int| 0 <= i < ids@.len() implies self.servers@.contains_key(#[trigger] ids@[i]) by {
                assert(seq.unref()[i] == *seq[i]);
                assert(seq.unref().contains(ids@[i]));
            }
            assert forall|i: int, j: int| 0 <= i < j < ids@.len() implies #[trigger] ids@[i] != #[trigger] ids@[j] by {
                assert(seq.no_duplicates());
            }
            assert(self.servers@.dom().finite());
        }
        let ghost old_servers = self.servers@;
        let n = ids.len();
        let zones = compute_zones(n);
        let mut orders: Vec<(u32, Zone)> = Vec::new();
        let mut i: usize = 0;
        while i < n
            invariant
                n == ids@.len(),
                zones@.len() == n,
                forall|a: int| 0 <= a < n ==> #[trigger] zones@[a] == split_zone(n as int, a),
                forall|a: int| 0 <= a < n ==> old_servers.contains_key(#[trigger] ids@[a]),
                forall|a: int, b: int| 0 <= a < b < n ==> #[trigger] ids@[a] != #[trigger] ids@[b],
                i <= n,
                orders@.len() == i,
                forall|a: int| 0 <= a < i ==> #[trigger] orders@[a] == (ids@[a], zones@[a]),
                self.servers@.dom() == old_servers.dom(),
                self@ == (CoordView { servers: self@.servers, ..start }),
                forall|a: int| 0 <= a < i ==> self.servers@[#[trigger] ids@[a]] == (ServerEntry { zone: zones@[a], ..old_servers[ids@[a]] }),
                forall|k: u32| old_servers.contains_key(k) && (forall|a: int| 0 <= a < i ==> ids@[a] != k) ==> #[trigger] self.servers@[k] == old_servers[k],
            decreases n - i,
        {
            let id = ids[i];
            let zone = zones[i];
            let entry = self.servers.get(&id).unwrap().with_zone(zone);
            let ghost before = self.servers@;
            self.servers.insert(id, entry);
            assert(self.servers@.dom() =~= before.dom());
            orders.push((id, zone));
            i = i + 1;
        }
        if n > 0 {
            let msg = count_text("🔄 Rebalanceo: ", n, " servidores");
            proof {
                lemma_logs_one(self@.events, msg, COORD_EVENT_CAP as nat);
            }
            self.log(msg);
        }
        orders
    }

    /// The heroes that the merged board shows inside `zone`, row by row.
    pub fn occupants(&self, zone: Zone) -> (out: Vec<ClientTransfer>)
        requires
            self@.wf(),
            zone.fits(),
        ensures
            out@ == occupants_in_rect(self@.board, zone.row_start as int, zone.row_end as int, zone.col_start as int, zone.col_end as int),
    {
        let mut out: Vec<ClientTransfer> = Vec::new();
        if zone.row_start > zone.row_end {
            return out;
        }
        if zone.col_start > zone.col_end {
            proof {
                lemma_occupants_no_columns(self@.board, zone.row_start as int, zone.row_end as int, zone.col_start as int, zone.col_end as int);
            }
            return out;
        }
        let mut r = zone.row_start;
        while r <= zone.row_end
            invariant
                self@.wf(),
                zone.on_board(),
                zone.row_start <= r <= zone.row_end + 1,
                out@ == occupants_in_rect(self@.board, zone.row_start as int, r as int - 1, zone.col_start as int, zone.col_end as int),
            decreases zone.row_end + 1 - r,
        {
            let mut c = zone.col_start;
            while c <= zone.col_end
                invariant
                    self@.wf(),
                    zone.on_board(),
                    zone.row_start <= r <= zone.row_end,
                    zone.col_start <= c <= zone.col_end + 1,
                    out@ == occupants_in_rect(self@.board, zone.row_start as int, r as int - 1, zone.col_start as int, zone.col_end as int)
                        + occupants_in_row(self@.board, r as int, zone.col_start as int, c as int - 1),
                decreases zone.col_end + 1 - c,
            {
                assert(self@.board[r as int] == self.board@[r as int]@);
                match &self.board[r][c] {
                    Some(ci) => {
                        out.push(ClientTransfer { client_id: ci.id, row: r, col: c, life: ci.life, max_life: ci.max_life, potions: ci.potions });
                    },
                    None => {},
                }
                c = c + 1;
            }
            r = r + 1;
        }
        out
    }

    /// The remaining server whose zone has the fewest cells (the first such
    /// in the order in which the table is walked).
    fn smallest_server(&self) -> (best: Option<u32>)
        requires
            self@.zones_on_board(),
        ensures
            best is None <==> self@.servers.dom().len() == 0,
            best matches Some(id) ==> self@.servers.contains_key(id) && forall|k: u32| #[trigger] self@.servers.contains_key(k)
                ==> self@.servers[id].zone.spec_cells() <= self@.servers[k].zone.spec_cells(),
    {
        let mut best: Option<(u32, usize)> = None;
        let ghost seq = vstd::std_specs::hash::spec_hash_map_iter(&self.servers).remaining();
        for (k, e) in it: self.servers.iter()
            invariant
                it.seq() == seq,
                self@.zones_on_board(),
                forall|i: int| 0 <= i < seq.len() ==> self@.servers.contains_key(*(#[trigger] seq[i]).0) && self@.servers[*seq[i].0] == *seq[i].1,
                best is None <==> it.index() == 0,
                best matches Some(b) ==> self@.servers.contains_key(b.0) && b.1 == self@.servers[b.0].zone.spec_cells()
                    && forall|i: int| 0 <= i < it.index() ==> b.1 <= (#[trigger] seq[i]).1.zone.spec_cells(),
        {
            assert(self@.servers.contains_key(*k) && self@.servers[*k] == *e);
            assert(e.zone.on_board());
            assert(e.zone.spec_cells() <= 100) by (nonlinear_arith)
                requires
                    e.zone.row_start <= e.zone.row_end < 10,
                    e.zone.col_start <= e.zone.col_end < 10;
            let n = e.zone.cells();
            match best {
                Some((bid, bn)) => {
                    if n < bn {
                        best = Some((*k, n));
                    }
                },
                None => {
                    best = Some((*k, n));
                },
            }
        }
        proof {
            if let Some(b) = best {
                assert forall|k: u32| #[trigger] self@.servers.contains_key(k) implies self@.servers[b.0].zone.spec_cells()
                    <= self@.servers[k].zone.spec_cells() by {
                    assert(seq.contains((&k, &self.servers@[k])));
                }
            }
            assert(seq.len() == self@.servers.dom().len());
        }
        match best {
            Some((id, _)) => Some(id),
            None => None,
        }
    }

    /// Server `server_id` went away: the departure is logged, the server is
    /// forgotten, and the remaining server with the smallest zone takes over
    /// its zone and the heroes the board shows there, which is logged too
    /// (as is that no server is left). The caller sends the handover.
    pub fn handle_disconnect(&mut self, server_id: u32) -> (d: Departure)
        requires
            old(self)@.wf(),
            old(self)@.zones_on_board(),
            old(self)@.tick + if old(self)@.servers.remove(server_id).dom().len() > 0 && !old(self)@.servers.contains_key(server_id) {
                1int
            } else {
                2int
            } <= u64::MAX,
        ensures
            final(self)@.wf(),
            final(self)@.zones_on_board(),
            departure_post(old(self)@, final(self)@, server_id, d),
    {
        let ghost start = self@;
        let msg = numbered_line("🔴 Servidor ", server_id, " desconectado");
        proof {
            lemma_logs_one(self@.events, msg, COORD_EVENT_CAP as nat);
        }
        self.log(msg);
        let ghost e1 = self@.events;
        let dead = self.servers.remove(&server_id);
        assert(self@.servers == start.servers.remove(server_id));
        assert(self@.zones_on_board()) by {
            assert forall|k: u32| #[trigger] self@.servers.contains_key(k) implies self@.servers[k].zone.on_board() by {
                assert(start.servers.contains_key(k));
            }
        }
        if self.servers.len() == 0 {
            let note = text("⚠️  Sin servidores");
            proof {
                lemma_logs_more(start.events, e1, seq![msg@], note, COORD_EVENT_CAP as nat);
                assert(seq![msg@].push(note@) =~= seq![msg@, none_left_line()]);
            }
            self.log(note);
            return Departure::NoneLeft;
        }
        let zone = match dead {
            Some(e) => e.zone,
            None => return Departure::Unknown,
        };
        assert(start.servers.contains_key(server_id) && zone == start.servers[server_id].zone);
        assert(zone.on_board());
        let target = match self.smallest_server() {
            Some(t) => t,
            None => return Departure::Unknown,
        };
        let clients = self.occupants(zone);
        let entry = match self.servers.get(&target) {
            Some(e) => {
                let rs = if e.zone.row_start <= zone.row_start { e.zone.row_start } else { zone.row_start };
                let re = if e.zone.row_end >= zone.row_end { e.zone.row_end } else { zone.row_end };
                e.with_zone(Zone { row_start: rs, row_end: re, col_start: 0, col_end: BOARD_SIZE - 1 })
            },
            None => return Departure::Unknown,
        };
        self.servers.insert(target, entry);
        let mut note = numbered_line("↔️  Zona ", server_id, " → Servidor ");
        note.append(shown_number_text(target).as_str());
        proof {
            lemma_logs_more(start.events, e1, seq![msg@], note, COORD_EVENT_CAP as nat);
            assert(seq![msg@].push(note@) =~= seq![msg@, handover_line(server_id, target)]);
        }
        self.log(note);
        Departure::Handover { target, zone, clients }
    }
}

/// The record of a hero handed over from cell `(r, c)`.
pub open spec fn transfer_of(ci: ClientInfo, r: int, c: int) -> ClientTransfer {
    ClientTransfer { client_id: ci.id, row: r as usize, col: c as usize, life: ci.life, max_life: ci.max_life, potions: ci.potions }
}

/// Heroes shown in row `r` among columns `c0..=c1`, left to right.
pub open spec fn occupants_in_row(b: Seq<Seq<Option<ClientInfo>>>, r: int, c0: int, c1: int) -> Seq<ClientTransfer>
    decreases c1 - c0 + 1,
{
    if c1 < c0 {
        Seq::empty()
    } else {
        occupants_in_row(b, r, c0, c1 - 1) + match b[r][c1] {
            Some(ci) => seq![transfer_of(ci, r, c1)],
            None => Seq::empty(),
        }
    }
}

/// Heroes shown in rows `r0..=r1` and columns `c0..=c1`, row by row.
pub open spec fn occupants_in_rect(b: Seq<Seq<Option<ClientInfo>>>, r0: int, r1: int, c0: int, c1: int) -> Seq<ClientTransfer>
    decreases r1 - r0 + 1,
{
    if r1 < r0 {
        Seq::empty()
    } else {
        occupants_in_rect(b, r0, r1 - 1, c0, c1) + occupants_in_row(b, r1, c0, c1)
    }
}

proof fn lemma_occupants_no_columns(b: Seq<Seq<Option<ClientInfo>>>, r0: int, r1: int, c0: int, c1: int)
    requires
        c1 < c0,
    ensures
        occupants_in_rect(b, r0, r1, c0, c1) =~= Seq::<ClientTransfer>::empty(),
    decreases r1 - r0 + 1,
{
    if r1 >= r0 {
        lemma_occupants_no_columns(b, r0, r1 - 1, c0, c1);
    }
}

/// What happened when a server went away.
pub enum Departure {
    /// No server is left.
    NoneLeft,
    /// The server was not known; nothing else changed.
    Unknown,
    /// Server `target` takes over `zone` with the heroes in `clients`.
    Handover { target: u32, zone: Zone, clients: Vec<ClientTransfer> },
}

/// The state and outcome after server `id` went away.
pub open spec fn departure_post(old: CoordView, new: CoordView, id: u32, d: Departure) -> bool {
    let rest = old.servers.remove(id);
    &&& new.board == old.board
    &&& new.orb_events == old.orb_events
    &&& new.orb_stats == old.orb_stats
    &&& new.next_srv == old.next_srv
    &&& if rest.dom().len() == 0 {
        &&& d is NoneLeft
        &&& new.servers == rest
        &&& logs_lines(old.events, new.events, seq![departure_line(id), none_left_line()], COORD_EVENT_CAP as nat)
        &&& new.tick == old.tick + 2
    } else if !old.servers.contains_key(id) {
        &&& d is Unknown
        &&& new.servers == rest
        &&& logs_lines(old.events, new.events, seq![departure_line(id)], COORD_EVENT_CAP as nat)
        &&& new.tick == old.tick + 1
    } else {
        let zone = old.servers[id].zone;
        &&& d matches Departure::Handover { target, zone: z, clients } && {
            &&& z == zone
            &&& clients@ == occupants_in_rect(old.board, zone.row_start as int, zone.row_end as int, zone.col_start as int, zone.col_end as int)
            &&& rest.contains_key(target)
            &&& forall|k: u32| #[trigger] rest.contains_key(k) ==> rest[target].zone.spec_cells() <= rest[k].zone.spec_cells()
            &&& new.servers == rest.insert(target, ServerEntry { zone: merged(rest[target].zone, zone), ..rest[target] })
            &&& logs_lines(old.events, new.events, seq![departure_line(id), handover_line(id, target)], COORD_EVENT_CAP as nat)
            &&& new.tick == old.tick + 2
        }
    }
}

/// When a server goes away and another takes over its zone, the taker's
/// zone afterwards holds every cell of the board that the departed server or
/// the taker held before, and the other remaining servers keep their zones.
pub proof fn lemma_handover_keeps_cells(old: CoordView, new: CoordView, id: u32, d: Departure, r: int, c: int)
    requires
        departure_post(old, new, id, d),
        0 <= c < BOARD_SIZE,
    ensures
        match d {
            Departure::Handover { target, .. } => {
                &&& old.servers.contains_key(id) && old.servers.contains_key(target) && target != id
                &&& new.servers.contains_key(target)
                &&& old.servers[id].zone.spec_contains(r, c) || old.servers[target].zone.spec_contains(r, c)
                    ==> new.servers[target].zone.spec_contains(r, c)
                &&& forall|k: u32| #[trigger] old.servers.contains_key(k) && k != id && k != target
                    ==> new.servers.contains_key(k) && new.servers[k].zone == old.servers[k].zone
            },
            _ => true,
        },
{
    if d is Handover {
        let rest = old.servers.remove(id);
        assert(rest.dom().len() != 0);
        assert(old.servers.contains_key(id));
        let zone = old.servers[id].zone;
        let target = d->target;
        assert(rest[target] == old.servers[target]);
        crate::zone_server::lemma_merged_covers_both(old.servers[target].zone, zone, r, c);
    }
}

/// The last hero of `clients` that reports standing on `(r, c)`.
pub open spec fn last_at(clients: Seq<ClientInfo>, r: int, c: int) -> Option<ClientInfo>
    decreases clients.len(),
{
    if clients.len() == 0 {
        None
    } else if clients.last().row == r && clients.last().col == c {
        Some(clients.last())
    } else {
        last_at(clients.drop_last(), r, c)
    }
}

/// What the merged board shows at `(r, c)` after a report of a server in
/// charge of `zone` with heroes `clients`: the last hero reported there;
/// otherwise nobody inside the zone, and the old content outside it.
pub open spec fn reported_cell(old: Option<ClientInfo>, zone: Zone, clients: Seq<ClientInfo>, r: int, c: int) -> Option<ClientInfo> {
    if last_at(clients, r, c) is Some {
        last_at(clients, r, c)
    } else if zone.spec_contains(r, c) {
        None
    } else {
        old
    }
}

proof fn lemma_last_at_push(clients: Seq<ClientInfo>, ci: ClientInfo, r: int, c: int)
    ensures
        last_at(clients.push(ci), r, c) == if ci.row == r && ci.col == c { Some(ci) } else { last_at(clients, r, c) },
{
    assert(clients.push(ci).drop_last() =~= clients);
}

impl CoordState {
    /// Writes `v` into cell `(r, c)` of the merged board.
    fn set_board(&mut self, r: usize, c: usize, v: Option<ClientInfo>)
        requires
            old(self)@.wf(),
            r < BOARD_SIZE,
            c < BOARD_SIZE,
        ensures
            final(self)@.wf(),
            final(self)@ == (CoordView {
                board: old(self)@.board.update(r as int, old(self)@.board[r as int].update(c as int, v)),
                ..old(self)@
            }),
    {
        let ghost start = self@;
        let mut row: Vec<Option<ClientInfo>> = Vec::new();
        self.board.set_and_swap(r, &mut row);
        assert(row@ == start.board[r as int]);
        row.set(c, v);
        self.board.set_and_swap(r, &mut row);
        assert(self@.board =~= start.board.update(r as int, start.board[r as int].update(c as int, v))) by {
            assert forall|i: int| 0 <= i < BOARD_SIZE implies self@.board[i] == start.board.update(r as int, start.board[r as int].update(c as int, v))[i] by {
                if i != r {
                    assert(self@.board[i] == self.board@[i]@);
                }
            }
        }
    }

    /// Takes in the report of server `server_id`: the heroes it lists are
    /// drawn on the merged board, the empty cells of its zone are cleared,
    /// its hero count is updated, its events join the log, and the tick
    /// advances.
    pub fn apply_state_update(&mut self, server_id: u32, snapshot: ZoneSnapshot)
        requires
            old(self)@.wf(),
            old(self)@.tick < u64::MAX,
            snapshot.zone.fits(),
        ensures
            final(self)@.wf(),
            forall|r: int, c: int| 0 <= r < BOARD_SIZE && 0 <= c < BOARD_SIZE ==> #[trigger] final(self)@.board[r][c]
                == reported_cell(old(self)@.board[r][c], snapshot.zone, snapshot.clients@, r, c),
            final(self)@.servers == if old(self)@.servers.contains_key(server_id) {
                old(self)@.servers.insert(server_id, ServerEntry { client_count: snapshot.clients@.len() as usize, ..old(self)@.servers[server_id] })
            } else {
                old(self)@.servers
            },
            final(self)@.events == appended(old(self)@.events, snapshot.events@, COORD_EVENT_CAP as nat),
            final(self)@.tick == old(self)@.tick + 1,
            final(self)@.orb_events == old(self)@.orb_events,
            final(self)@.orb_stats == old(self)@.orb_stats,
            final(self)@.next_srv == old(self)@.next_srv,
    {
        let ghost start = self@;
        let clients = &snapshot.clients;
        let mut i: usize = 0;
        while i < clients.len()
            invariant
                self@.wf(),
                i <= clients@.len(),
                self@ == (CoordView { board: self@.board, ..start }),
                forall|r: int, c: int| 0 <= r < BOARD_SIZE && 0 <= c < BOARD_SIZE ==> #[trigger] self@.board[r][c]
                    == if last_at(clients@.take(i as int), r, c) is Some { last_at(clients@.take(i as int), r, c) } else { start.board[r][c] },
            decreases clients@.len() - i,
        {
            let ci = &clients[i];
            proof {
                assert(clients@.take(i as int + 1) == clients@.take(i as int).push(clients@[i as int]));
                assert forall|r: int, c: int| 0 <= r < BOARD_SIZE && 0 <= c < BOARD_SIZE implies last_at(clients@.take(i as int + 1), r, c)
                    == if clients@[i as int].row == r && clients@[i as int].col == c { Some(clients@[i as int]) } else { last_at(clients@.take(i as int), r, c) } by {
                    lemma_last_at_push(clients@.take(i as int), clients@[i as int], r, c);
                }
            }
            if ci.row < BOARD_SIZE && ci.col < BOARD_SIZE {
                self.set_board(ci.row, ci.col, Some(ci.duplicate()));
            }
            i = i + 1;
        }
        assert(clients@.take(clients@.len() as int) == clients@);
        let zone = snapshot.zone;
        if zone.row_start <= zone.row_end && zone.col_start <= zone.col_end {
            let mut r = zone.row_start;
            while r <= zone.row_end
                invariant
                    self@.wf(),
                    zone.on_board(),
                    zone == snapshot.zone,
                    zone.row_start <= r <= zone.row_end + 1,
                    self@ == (CoordView { board: self@.board, ..start }),
                    forall|a: int, b: int| 0 <= a < BOARD_SIZE && 0 <= b < BOARD_SIZE ==> #[trigger] self@.board[a][b]
                        == if last_at(clients@, a, b) is Some { last_at(clients@, a, b) }
                           else if zone.spec_contains(a, b) && a < r { None }
                           else { start.board[a][b] },
                decreases zone.row_end + 1 - r,
            {
                let mut c = zone.col_start;
                while c <= zone.col_end
                    invariant
                        self@.wf(),
                        zone.on_board(),
                        zone == snapshot.zone,
                        zone.row_start <= r <= zone.row_end,
                        zone.col_start <= c <= zone.col_end + 1,
                        self@ == (CoordView { board: self@.board, ..start }),
                        forall|a: int, b: int| 0 <= a < BOARD_SIZE && 0 <= b < BOARD_SIZE ==> #[trigger] self@.board[a][b]
                            == if last_at(clients@, a, b) is Some { last_at(clients@, a, b) }
                               else if zone.spec_contains(a, b) && (a < r || (a == r && b < c)) { None }
                               else { start.board[a][b] },
                    decreases zone.col_end + 1 - c,
                {
                    if !reports_cell(clients, r, c) {
                        self.set_board(r, c, None);
                    }
                    c = c + 1;
                }
                r = r + 1;
            }
        }
        let ghost mid = self@;
        match self.servers.get(&server_id) {
            Some(e) => {
                let entry = ServerEntry {
                    id: e.id,
                    zone: e.zone,
                    tcp_addr: e.tcp_addr.clone(),
                    ws_addr: e.ws_addr.clone(),
                    client_count: clients.len(),
                };
                self.servers.insert(server_id, entry);
            },
            None => {},
        }
        let evs = &snapshot.events;
        let mut j: usize = 0;
        while j < evs.len()
            invariant
                j <= evs@.len(),
                self@.wf(),
                self@ == (CoordView { events: self@.events, ..self@ }),
                self@.board == mid.board,
                self@.tick == start.tick,
                self@.orb_events == start.orb_events,
                self@.orb_stats == start.orb_stats,
                self@.next_srv == start.next_srv,
                self@.servers == if start.servers.contains_key(server_id) {
                    start.servers.insert(server_id, ServerEntry { client_count: snapshot.clients@.len() as usize, ..start.servers[server_id] })
                } else {
                    start.servers
                },
                self@.events == appended(start.events, evs@.take(j as int), COORD_EVENT_CAP as nat),
            decreases evs@.len() - j,
        {
            self.events.push(evs[j].clone());
            if self.events.len() > COORD_EVENT_CAP {
                self.events.remove(0);
            }
            assert(evs@.take(j as int + 1).drop_last() == evs@.take(j as int));
            j = j + 1;
        }
        assert(evs@.take(evs@.len() as int) == evs@);
        self.tick = self.tick + 1;
        proof {
            assert forall|r: int, c: int| 0 <= r < BOARD_SIZE && 0 <= c < BOARD_SIZE implies #[trigger] self@.board[r][c]
                == reported_cell(start.board[r][c], snapshot.zone, snapshot.clients@, r, c) by {
                if !(zone.row_start <= zone.row_end && zone.col_start <= zone.col_end) {
                    assert(!zone.spec_contains(r, c));
                }
            }
        }
    }

    /// Takes in an attack that the broker routed: the counters advance (a
    /// `cross_zone` routing counts as a cross-zone hit, any other as a local
    /// one), the event joins the list, stamped with the current tick, and is
    /// logged.
    pub fn record_orb_event(&mut self, attacker: u32, target: u32, damage: i32, target_row: usize, target_col: usize, died: bool, routing: String)
        requires
            old(self)@.wf(),
            old(self)@.tick < u64::MAX,
            old(self)@.orb_stats.total_invocations < u64::MAX,
            old(self)@.orb_stats.cross_zone_hits < u64::MAX,
            old(self)@.orb_stats.local_hits < u64::MAX,
        ensures
            final(self)@.wf(),
            ({
                let cross = routing@ == "cross_zone"@;
                let s = old(self)@.orb_stats;
                let ev = OrbEvent { tick: old(self)@.tick, attacker, target, damage, target_row, target_col, died, routing };
                &&& final(self)@.orb_stats == counted(s, cross)
                &&& final(self)@.orb_events == if old(self)@.orb_events.len() + 1 > ORB_EVENT_CAP {
                    old(self)@.orb_events.push(ev).drop_first()
                } else {
                    old(self)@.orb_events.push(ev)
                }
                &&& logs_lines(
                    old(self)@.events,
                    final(self)@.events,
                    seq![orb_event_line(attacker, target, damage, died, cross)],
                    COORD_EVENT_CAP as nat,
                )
            }),
            final(self)@.tick == old(self)@.tick + 1,
            final(self)@ == (CoordView {
                orb_stats: final(self)@.orb_stats,
                orb_events: final(self)@.orb_events,
                events: final(self)@.events,
                tick: final(self)@.tick,
                ..old(self)@
            }),
    {
        let cross = routing == text("cross_zone");
        let mut stats = self.orb_stats;
        stats.total_invocations = stats.total_invocations + 1;
        if cross {
            stats.cross_zone_hits = stats.cross_zone_hits + 1;
        } else {
            stats.local_hits = stats.local_hits + 1;
        }
        self.orb_stats = stats;
        let mut msg = numbered_line("🗡️  [ORB] #", attacker, " → #");
        msg.append(shown_number_text(target).as_str());
        msg.append(" dmg=");
        msg.append(signed_text(damage as i64).as_str());
        let ghost m0 = msg@;
        if died {
            msg.append(" 💀");
        }
        let ghost m1 = msg@;
        if cross {
            msg.append(" (cross)");
        } else {
            msg.append(" (local)");
        }
        proof {
            if !died {
                assert(m1 =~= m0 + Seq::<char>::empty());
            }
        }
        self.orb_events.push(OrbEvent { tick: self.tick, attacker, target, damage, target_row, target_col, died, routing });
        if self.orb_events.len() > ORB_EVENT_CAP {
            self.orb_events.remove(0);
        }
        proof {
            lemma_logs_one(self@.events, msg, COORD_EVENT_CAP as nat);
        }
        self.log(msg);
    }

    /// The merged board, every server (in the order in which the table is
    /// walked, each marked alive), the log, the broker's events and
    /// counters, and the tick.
    pub fn snapshot(&self) -> (snap: GlobalSnapshot)
        requires
            self@.wf(),
        ensures
            snap.board@.len() == BOARD_SIZE,
            forall|r: int| 0 <= r < BOARD_SIZE ==> (#[trigger] snap.board@[r])@ == self@.board[r],
            snap.servers@.len() == self@.servers.dom().len(),
            forall|i: int| 0 <= i < snap.servers@.len() ==> listed(#[trigger] snap.servers@[i], self@.servers),
            forall|k: u32| #[trigger] self@.servers.contains_key(k) ==> shown(snap.servers@, self@.servers[k]),
            snap.events@ == self@.events,
            snap.orb_events@ == self@.orb_events,
            snap.orb_stats == self@.orb_stats,
            snap.tick == self@.tick,
    {
        let mut board: Vec<Vec<Option<ClientInfo>>> = Vec::new();
        let mut r: usize = 0;
        while r < BOARD_SIZE
            invariant
                self@.wf(),
                r <= BOARD_SIZE,
                board@.len() == r,
                forall|i: int| 0 <= i < r ==> (#[trigger] board@[i])@ == self@.board[i],
            decreases BOARD_SIZE - r,
        {
            assert(self@.board[r as int] == self.board@[r as int]@);
            let src = &self.board[r];
            let mut row: Vec<Option<ClientInfo>> = Vec::new();
            let mut c: usize = 0;
            while c < src.len()
                invariant
                    c <= src@.len(),
                    row@ == src@.take(c as int),
                decreases src@.len() - c,
            {
                let v = match &src[c] {
                    Some(ci) => Some(ci.duplicate()),
                    None => None,
                };
                row.push(v);
                assert(src@.take(c as int + 1) == src@.take(c as int).push(src@[c as int]));
                c = c + 1;
            }
            assert(src@.take(src@.len() as int) == src@);
            board.push(row);
            r = r + 1;
        }
        let mut servers: Vec<ServerMeta> = Vec::new();
        let ghost seq = vstd::std_specs::hash::spec_hash_map_iter(&self.servers).remaining();
        for (k, e) in it: self.servers.iter()
            invariant
                it.seq() == seq,
                forall|i: int| 0 <= i < seq.len() ==> self@.servers.contains_key(*(#[trigger] seq[i]).0) && self@.servers[*seq[i].0] == *seq[i].1,
                servers@.len() == it.index(),
                forall|i: int| 0 <= i < servers@.len() ==> meta_matches(#[trigger] servers@[i], *seq[i].1),
        {
            servers.push(ServerMeta {
                id: e.id,
                zone: e.zone,
                alive: true,
                client_count: e.client_count,
                ws_addr: e.ws_addr.clone(),
                tcp_addr: e.tcp_addr.clone(),
            });
        }
        proof {
            assert forall|i: int| 0 <= i < servers@.len() implies listed(#[trigger] servers@[i], self@.servers) by {
                assert(self@.servers.contains_key(*seq[i].0));
            }
            assert forall|k: u32| #[trigger] self@.servers.contains_key(k) implies shown(servers@, self@.servers[k]) by {
                assert(seq.contains((&k, &self.servers@[k])));
                let i = choose|i: int| 0 <= i < seq.len() && seq[i] == (&k, &self.servers@[k]);
                assert(meta_matches(servers@[i], self@.servers[k]));
            }
        }
        let mut orb_events: Vec<OrbEvent> = Vec::new();
        let mut j: usize = 0;
        while j < self.orb_events.len()
            invariant
                j <= self.orb_events@.len(),
                orb_events@ == self.orb_events@.take(j as int),
            decreases self.orb_events@.len() - j,
        {
            orb_events.push(self.orb_events[j].duplicate());
            assert(self.orb_events@.take(j as int + 1) == self.orb_events@.take(j as int).push(self.orb_events@[j as int]));
            j = j + 1;
        }
        assert(self.orb_events@.take(self.orb_events@.len() as int) == self.orb_events@);
        GlobalSnapshot {
            board,
            servers,
            events: copy_strings(&self.events),
            orb_events,
            orb_stats: self.orb_stats,
            tick: self.tick,
        }
    }
}

/// `m` shows server entry `e`, as alive.
pub open spec fn meta_matches(m: ServerMeta, e: ServerEntry) -> bool {
    &&& m.id == e.id
    &&& m.alive
    &&& m.zone == e.zone
    &&& m.client_count == e.client_count
    &&& m.ws_addr == e.ws_addr
    &&& m.tcp_addr == e.tcp_addr
}

/// Some entry of `metas` shows `e`.
pub open spec fn shown(metas: Seq<ServerMeta>, e: ServerEntry) -> bool {
    exists|i: int| 0 <= i < metas.len() && meta_matches(#[trigger] metas[i], e)
}

/// `m` shows one of the entries of `servers`.
pub open spec fn listed(m: ServerMeta, servers: Map<u32, ServerEntry>) -> bool {
    exists|k: u32| #[trigger] servers.contains_key(k) && meta_matches(m, servers[k])
}

/// Whether some hero of `clients` reports standing on `(r, c)`.
fn reports_cell(clients: &Vec<ClientInfo>, r: usize, c: usize) -> (b: bool)
    ensures
        b == (last_at(clients@, r as int, c as int) is Some),
{
    let mut i: usize = 0;
    let mut found = false;
    while i < clients.len()
        invariant
            i <= clients@.len(),
            found == (last_at(clients@.take(i as int), r as int, c as int) is Some),
        decreases clients@.len() - i,
    {
        proof {
            assert(clients@.take(i as int + 1) == clients@.take(i as int).push(clients@[i as int]));
            lemma_last_at_push(clients@.take(i as int), clients@[i as int], r as int, c as int);
        }
        if clients[i].row == r && clients[i].col == c {
            found = true;
        }
        i = i + 1;
    }
    assert(clients@.take(clients@.len() as int) == clients@);
    found
}

} // verus!
