use std::collections::HashMap;
use vstd::prelude::*;
use crate::board::{
    Board, BoardView, describes, free_in_rect, lemma_free_in_rect, lemma_relocated_consistent,
    lemma_taken_consistent, relocated, taken,
};
use crate::dice::clock_subsec_nanos;
use vstd::string::*;
use crate::orb::{cell_message, cell_text, decimal, decimal_text, signed_decimal, signed_text};
use crate::protocol::{CellState, ClientPacket, ServerPacket, text};

verus! {

broadcast use vstd::std_specs::hash::group_hash_axioms;

/// Most events a server keeps in its log.
pub const EVENT_CAP: usize = 60;

/// Side of the board of the single-server dungeon.
pub const ARENA_SIZE: usize = 3;

/// What the front end shows of a hero.
pub struct ClientInfo {
    pub id: u32,
    pub life: i32,
    pub max_life: i32,
    pub potions: u32,
    pub action: String,
}

impl ClientInfo {
    /// A copy of this record.
    pub fn duplicate(&self) -> (r: ClientInfo)
        ensures
            r == *self,
    {
        ClientInfo {
            id: self.id,
            life: self.life,
            max_life: self.max_life,
            potions: self.potions,
            action: self.action.clone(),
        }
    }
}

/// The board as the front end draws it, with the recent events.
pub struct BoardSnapshot {
    pub board: Vec<Vec<Option<ClientInfo>>>,
    pub events: Vec<String>,
    pub tick: u64,
}

/// The state of the single-server dungeon.
pub struct ServerState {
    board: Board,
    client_info: HashMap<u32, ClientInfo>,
    events: Vec<String>,
    tick: u64,
    next_id: u32,
}

/// The mathematical content of a [`ServerState`].
pub struct ArenaView {
    pub board: BoardView,
    pub info: Map<u32, ClientInfo>,
    pub events: Seq<String>,
    pub tick: u64,
    pub next_id: u32,
}

impl ArenaView {
    pub open spec fn wf(self) -> bool {
        &&& self.board.wf()
        &&& self.board.size() < isize::MAX
        &&& self.events.len() <= EVENT_CAP
    }

    /// Where hero `id` asks from: its recorded position, or the corner.
    pub open spec fn position_of(self, id: u32) -> (usize, usize) {
        if self.board.positions.contains_key(id) {
            self.board.positions[id]
        } else {
            (0, 0)
        }
    }
}

/// The log after appending `msg`: the oldest entry leaves once there are
/// more than `cap`.
pub open spec fn logged(events: Seq<String>, msg: String, cap: nat) -> Seq<String> {
    if events.len() + 1 > cap {
        events.push(msg).drop_first()
    } else {
        events.push(msg)
    }
}

/// The log after appending each of `msgs` in turn.
pub open spec fn appended(events: Seq<String>, msgs: Seq<String>, cap: nat) -> Seq<String>
    decreases msgs.len(),
{
    if msgs.len() == 0 {
        events
    } else {
        logged(appended(events, msgs.drop_last(), cap), msgs.last(), cap)
    }
}

/// `new` is the log `old` after entries reading `lines` were written to it in
/// turn.
pub open spec fn logs_lines(old: Seq<String>, new: Seq<String>, lines: Seq<Seq<char>>, cap: nat) -> bool {
    exists|ms: Seq<String>| #[trigger] appended(old, ms, cap) == new && reads(ms, lines)
}

/// Entries `ms` read `lines`, one for one.
pub open spec fn reads(ms: Seq<String>, lines: Seq<Seq<char>>) -> bool {
    &&& ms.len() == lines.len()
    &&& forall|i: int| 0 <= i < ms.len() ==> #[trigger] ms[i]@ == lines[i]
}

/// Writing one entry is writing the one-line sequence.
pub proof fn lemma_logs_one(old: Seq<String>, m: String, cap: nat)
    ensures
        logs_lines(old, logged(old, m, cap), seq![m@], cap),
{
    let ms = seq![m];
    assert(ms.drop_last() =~= Seq::<String>::empty());
    assert(appended(old, Seq::<String>::empty(), cap) == old);
    assert(appended(old, ms, cap) == logged(old, m, cap));
    assert(reads(ms, seq![m@]));
}

/// Lines written after other lines follow them in the log.
pub proof fn lemma_logs_then_one(old: Seq<String>, mid: Seq<String>, lines: Seq<Seq<char>>, new: Seq<String>, line: Seq<char>, cap: nat)
    requires
        logs_lines(old, mid, lines, cap),
        logs_lines(mid, new, seq![line], cap),
    ensures
        logs_lines(old, new, lines.push(line), cap),
{
    let ms = choose|ms: Seq<String>| #[trigger] appended(mid, ms, cap) == new && reads(ms, seq![line]);
    assert(ms.drop_last() =~= Seq::<String>::empty());
    assert(appended(mid, Seq::<String>::empty(), cap) == mid);
    assert(ms[0]@ == line);
    lemma_logs_more(old, mid, lines, ms[0], cap);
}

/// Writing one more entry after some lines adds it to the lines.
pub proof fn lemma_logs_more(old: Seq<String>, mid: Seq<String>, lines: Seq<Seq<char>>, m: String, cap: nat)
    requires
        logs_lines(old, mid, lines, cap),
    ensures
        logs_lines(old, logged(mid, m, cap), lines.push(m@), cap),
{
    let ms = choose|ms: Seq<String>| #[trigger] appended(old, ms, cap) == mid && reads(ms, lines);
    let ms2 = ms.push(m);
    assert(ms2.drop_last() =~= ms);
    assert(appended(old, ms2, cap) == logged(mid, m, cap));
    assert(reads(ms2, lines.push(m@)));
}

/// The number an id is shown with in the log: the id plus one, in decimal.
pub open spec fn shown_number(id: u32) -> Seq<char> {
    decimal(id as nat + 1)
}

/// The entry written when hero `id` leaves.
pub open spec fn removal_line(id: u32) -> Seq<char> {
    "💀 Cliente "@ + shown_number(id) + " eliminado"@
}

/// The entry written when hero `id` dies.
pub open spec fn death_line(id: u32) -> Seq<char> {
    "💀 Cliente "@ + shown_number(id) + " ha muerto!"@
}

/// The entry written when hero `id` took `damage` from hero `from` and has
/// `life` out of `max_life` left.
pub open spec fn hit_line(id: u32, damage: i32, from: u32, life: int, max_life: i32) -> Seq<char> {
    "💢 Cliente "@ + shown_number(id) + " recibió "@ + signed_decimal(damage as int) + " daño de "@ + shown_number(from)
        + " → "@ + signed_decimal(life) + "/"@ + signed_decimal(max_life as int) + " HP"@
}

/// The entry written when hero `id` is seated on `(r, c)`.
pub open spec fn entry_line(id: u32, r: usize, c: usize) -> Seq<char> {
    cell_text("⚡ Cliente "@ + shown_number(id) + " entró en "@, r as nat, c as nat, ""@)
}

/// The entry written when hero `id` moved to `(r, c)`.
pub open spec fn move_line(id: u32, r: usize, c: usize) -> Seq<char> {
    cell_text("🚶 Cliente "@ + shown_number(id) + " → "@, r as nat, c as nat, ""@)
}

/// The entry written when hero `id` struck hero `target` with `damage`.
pub open spec fn attack_line(id: u32, target: u32, damage: i32) -> Seq<char> {
    "⚔️  Cliente "@ + shown_number(id) + " atacó a "@ + shown_number(target) + " por "@ + signed_decimal(damage as int)
        + " daño"@
}

/// The entry written when hero `id` drank a potion.
pub open spec fn potion_line(id: u32) -> Seq<char> {
    "🧪 Cliente "@ + shown_number(id) + " usó poción"@
}

/// The number `id` is shown with.
pub(crate) fn shown_number_text(id: u32) -> (s: String)
    ensures
        s@ == shown_number(id),
{
    decimal_text(id as u64 + 1)
}

/// `head`, the number `id` is shown with, then `tail`.
pub(crate) fn numbered_line(head: &str, id: u32, tail: &str) -> (s: String)
    ensures
        s@ == head@ + shown_number(id) + tail@,
{
    let mut s = text(head);
    s.append(shown_number_text(id).as_str());
    s.append(tail);
    s
}

/// The record of hero `id` after it moved.
pub open spec fn with_action(info: Map<u32, ClientInfo>, id: u32, action: Seq<char>, new_info: Map<
    u32,
    ClientInfo,
>) -> bool {
    if info.contains_key(id) {
        &&& new_info.dom() == info.dom()
        &&& forall|k: u32| k != id && #[trigger] info.contains_key(k) ==> new_info[k] == info[k]
        &&& new_info[id].id == info[id].id
        &&& new_info[id].life == info[id].life
        &&& new_info[id].max_life == info[id].max_life
        &&& new_info[id].potions == info[id].potions
        &&& new_info[id].action@ == action
    } else {
        new_info == info
    }
}

/// The state after hero `id` left: its cell is emptied, its position and its
/// record forgotten.
pub open spec fn removed(old: ArenaView, new: ArenaView, id: u32) -> bool {
    &&& new.board.positions == old.board.positions.remove(id)
    &&& new.board.cells == if old.board.positions.contains_key(id) {
        old.board.set(
            old.board.positions[id].0 as int,
            old.board.positions[id].1 as int,
            None,
        )
    } else {
        old.board.cells
    }
    &&& new.info == old.info.remove(id)
    &&& logs_lines(old.events, new.events, seq![removal_line(id)], EVENT_CAP as nat)
    &&& new.tick == old.tick
    &&& new.next_id == old.next_id
}

/// The outcome of a move request of hero `id` to `(r, c)`.
pub open spec fn move_post(old: ArenaView, new: ArenaView, id: u32, r: usize, c: usize, reply: ServerPacket) -> bool {
    if !old.board.is_free(r as int, c as int) {
        &&& new == old
        &&& reply matches ServerPacket::MoveDenied { reason } && reason@ == "Casilla no disponible"@
    } else {
        let cleared = if old.board.positions.contains_key(id) {
            old.board.set(
                old.board.positions[id].0 as int,
                old.board.positions[id].1 as int,
                None,
            )
        } else {
            old.board.cells
        };
        &&& new.board.cells == cleared.update(r as int, cleared[r as int].update(c as int, Some(id)))
        &&& new.board.positions == old.board.positions.insert(id, (r, c))
        &&& with_action(old.info, id, "move"@, new.info)
        &&& logs_lines(old.events, new.events, seq![move_line(id, r, c)], EVENT_CAP as nat)
        &&& new.tick == old.tick + 1
        &&& new.next_id == old.next_id
        &&& reply == ServerPacket::MoveOk { row: r, col: c }
    }
}

/// The outcome of an attack of hero `id` on cell `(r, c)` with `damage`
/// points: the occupant, if any, is to be sent the damage.
pub open spec fn attack_post(old: ArenaView, new: ArenaView, id: u32, r: usize, c: usize, damage: i32, deliver: Option<(u32, ServerPacket)>) -> bool {
    &&& new.board == old.board
    &&& with_action(old.info, id, "attack"@, new.info)
    &&& match old.board.at(r as int, c as int) {
        Some(tid) => logs_lines(old.events, new.events, seq![attack_line(id, tid, damage)], EVENT_CAP as nat),
        None => new.events == old.events,
    }
    &&& new.tick == old.tick + 1
    &&& new.next_id == old.next_id
    &&& deliver == match old.board.at(r as int, c as int) {
        Some(tid) => Some((tid, ServerPacket::TakeDamage { damage, from_id: id })),
        None => None,
    }
}

/// The outcome of hero `id` drinking a potion: one potion fewer (never below
/// zero) and 50 life more, up to its maximum.
pub open spec fn potion_post(old: ArenaView, new: ArenaView, id: u32) -> bool {
    &&& new.board == old.board
    &&& logs_lines(old.events, new.events, seq![potion_line(id)], EVENT_CAP as nat)
    &&& new.tick == old.tick + 1
    &&& new.next_id == old.next_id
    &&& if old.info.contains_key(id) {
        let o = old.info[id];
        &&& new.info.dom() == old.info.dom()
        &&& forall|k: u32| k != id && #[trigger] old.info.contains_key(k) ==> new.info[k] == old.info[k]
        &&& new.info[id].id == o.id
        &&& new.info[id].max_life == o.max_life
        &&& new.info[id].potions == if o.potions > 0 { (o.potions - 1) as u32 } else { 0 }
        &&& new.info[id].life == if o.life + 50 < o.max_life { o.life + 50 } else { o.max_life as int }
        &&& new.info[id].action@ == "potion"@
    } else {
        new.info == old.info
    }
}

/// The outcome of hero `id` taking `damage` points from hero `from`: it dies
/// when its life falls to zero or below, and then leaves the board.
pub open spec fn damage_post(old: ArenaView, new: ArenaView, id: u32, damage: i32, from: u32, dead: bool) -> bool {
    if old.info.contains_key(id) {
        let o = old.info[id];
        let life = o.life - damage;
        &&& dead == (life <= 0)
        &&& if dead {
            &&& new.board.positions == old.board.positions.remove(id)
            &&& new.board.cells == if old.board.positions.contains_key(id) {
                old.board.set(
                    old.board.positions[id].0 as int,
                    old.board.positions[id].1 as int,
                    None,
                )
            } else {
                old.board.cells
            }
            &&& new.info == old.info.remove(id)
        } else {
            &&& new.board == old.board
            &&& new.info.dom() == old.info.dom()
            &&& forall|k: u32| k != id && #[trigger] old.info.contains_key(k) ==> new.info[k] == old.info[k]
            &&& new.info[id] == (ClientInfo { life: life as i32, ..o })
        }
        &&& logs_lines(
            old.events,
            new.events,
            if dead {
                seq![hit_line(id, damage, from, life, o.max_life), death_line(id), removal_line(id)]
            } else {
                seq![hit_line(id, damage, from, life, o.max_life)]
            },
            EVENT_CAP as nat,
        )
        &&& new.tick == old.tick + 1
        &&& new.next_id == old.next_id
    } else {
        &&& !dead
        &&& new == old
    }
}

/// Life of hero `id` is far enough from the `i32` limits for `damage` to be
/// subtracted and for a potion to be added.
pub open spec fn life_in_range(info: Map<u32, ClientInfo>, id: u32, damage: i32) -> bool {
    info.contains_key(id) ==> i32::MIN <= info[id].life - damage <= i32::MAX
}

/// What a server does with one packet of a hero.
pub enum Outcome {
    /// Answer the hero with this packet.
    Reply(ServerPacket),
    /// Hand this packet to the connection of hero `target`.
    Deliver { target: u32, packet: ServerPacket },
    /// Nothing to send.
    Nothing,
    /// The hero is gone: close its connection.
    Leave,
}

impl View for ServerState {
    type V = ArenaView;

    closed spec fn view(&self) -> ArenaView {
        ArenaView {
            board: self.board@,
            info: self.client_info@,
            events: self.events@,
            tick: self.tick,
            next_id: self.next_id,
        }
    }
}

impl ServerState {
    /// An empty dungeon of `size` by `size` cells.
    pub fn new(size: usize) -> (s: ServerState)
        requires
            size < isize::MAX,
        ensures
            s@.wf(),
            s@.board.size() == size,
            s@.board.positions.is_empty(),
            forall|r: int, c: int| s@.board.in_bounds(r, c) ==> #[trigger] s@.board.at(r, c) is None,
            s@.info.is_empty(),
            s@.events.len() == 0,
            s@.tick == 0,
            s@.next_id == 0,
    {
        ServerState {
            board: Board::new(size),
            client_info: HashMap::new(),
            events: Vec::new(),
            tick: 0,
            next_id: 0,
        }
    }

    pub fn tick(&self) -> (t: u64)
        ensures
            t == self@.tick,
    {
        self.tick
    }

    pub fn events(&self) -> (e: &Vec<String>)
        ensures
            e@ == self@.events,
    {
        &self.events
    }

    /// The record of hero `id`.
    pub fn client(&self, id: u32) -> (c: Option<ClientInfo>)
        ensures
            match c {
                Some(ci) => self@.info.contains_key(id) && ci == self@.info[id],
                None => !self@.info.contains_key(id),
            },
    {
        match self.client_info.get(&id) {
            Some(ci) => Some(ci.duplicate()),
            None => None,
        }
    }

    /// The position recorded for hero `id`.
    pub fn position(&self, id: u32) -> (p: Option<(usize, usize)>)
        ensures
            match p {
                Some(pos) => self@.board.positions.contains_key(id) && self@.board.positions[id] == pos,
                None => !self@.board.positions.contains_key(id),
            },
    {
        self.board.position(id)
    }

    /// Who stands at `(r, c)`.
    pub fn occupant(&self, r: usize, c: usize) -> (o: Option<u32>)
        requires
            self@.wf(),
            self@.board.in_bounds(r as int, c as int),
        ensures
            o == self@.board.at(r as int, c as int),
    {
        self.board.occupant(r, c)
    }

    /// Hands out the next hero id.
    pub fn next_client_id(&mut self) -> (id: u32)
        requires
            old(self)@.next_id < u32::MAX,
        ensures
            id == old(self)@.next_id,
            final(self)@ == (ArenaView { next_id: (id + 1) as u32, ..old(self)@ }),
    {
        let id = self.next_id;
        self.next_id = self.next_id + 1;
        id
    }

    /// The free cell of the board at index `seed` modulo their number, in
    /// row-by-row order, or `None` when the board is full.
    pub fn pick_free_cell(&self, seed: u32) -> (cell: Option<(usize, usize)>)
        requires
            self@.wf(),
        ensures
            ({
                let n = self@.board.size() as int;
                let free = free_in_rect(self@.board, 0, n - 1, 0, n - 1);
                &&& cell is None <==> free.len() == 0
                &&& cell matches Some(p) ==> p == free[seed as int % free.len() as int]
            }),
    {
        let n = self.board.size();
        if n == 0 {
            return None;
        }
        let candidates = self.board.free_cells(0, n - 1, 0, n - 1);
        if candidates.len() == 0 {
            return None;
        }
        let idx = (seed as usize) % candidates.len();
        Some(candidates[idx])
    }

    /// A free cell chosen by the clock, or `None` when the board is full.
    pub fn find_free_cell(&self) -> (cell: Option<(usize, usize)>)
        requires
            self@.wf(),
        ensures
            cell is None <==> forall|r: int, c: int| !#[trigger] self@.board.is_free(r, c),
            cell matches Some(p) ==> self@.board.is_free(p.0 as int, p.1 as int),
    {
        let seed = clock_subsec_nanos();
        let cell = self.pick_free_cell(seed);
        proof {
            let n = self@.board.size() as int;
            lemma_free_in_rect(self@.board, 0, n - 1, 0, n - 1);
            let free = free_in_rect(self@.board, 0, n - 1, 0, n - 1);
            if let Some(p) = cell {
                assert(free.contains(p));
                assert(self@.board.is_free(p.0 as int, p.1 as int));
            } else {
                assert forall|r: int, c: int| !#[trigger] self@.board.is_free(r, c) by {
                    if self@.board.is_free(r, c) {
                        assert(free.contains((r as usize, c as usize)));
                    }
                }
            }
            if free.len() > 0 {
                assert(free.contains(free[0]));
            }
        }
        cell
    }

    /// Puts hero `id` on `(row, col)`.
    pub fn place_client(&mut self, id: u32, row: usize, col: usize)
        requires
            old(self)@.wf(),
            old(self)@.board.in_bounds(row as int, col as int),
        ensures
            final(self)@.wf(),
            final(self)@.board.cells == old(self)@.board.set(row as int, col as int, Some(id)),
            final(self)@.board.positions == old(self)@.board.positions.insert(id, (row, col)),
            final(self)@.info == old(self)@.info,
            final(self)@.events == old(self)@.events,
            final(self)@.tick == old(self)@.tick,
            final(self)@.next_id == old(self)@.next_id,
    {
        self.board.place(id, row, col);
    }

    /// Takes hero `id` off the board, forgets it and logs its removal.
    pub fn remove_client(&mut self, id: u32)
        requires
            old(self)@.wf(),
        ensures
            final(self)@.wf(),
            removed(old(self)@, final(self)@, id),
    {
        self.board.take(id);
        self.client_info.remove(&id);
        let msg = numbered_line("💀 Cliente ", id, " eliminado");
        proof {
            lemma_logs_one(self@.events, msg, EVENT_CAP as nat);
        }
        self.log(msg);
    }

    /// The neighbours of `(row, col)`: north, south, east, west.
    pub fn neighbors(&self, row: usize, col: usize) -> (out: [CellState; 4])
        requires
            self@.wf(),
            row < isize::MAX,
            col < isize::MAX,
        ensures
            forall|i: int| 0 <= i < 4 ==> describes(self@.board, #[trigger] out@[i], i, row as int, col as int),
    {
        self.board.neighbors(row, col)
    }

    /// Appends `msg` to the log, dropping the oldest entry past the cap.
    pub fn log(&mut self, msg: String)
        requires
            old(self)@.wf(),
        ensures
            final(self)@.wf(),
            final(self)@ == (ArenaView { events: logged(old(self)@.events, msg, EVENT_CAP as nat), ..old(self)@ }),
    {
        self.events.push(msg);
        if self.events.len() > EVENT_CAP {
            self.events.remove(0);
        }
    }

    /// The board with the record of each hero on it, the log and the tick.
    pub fn snapshot(&self) -> (snap: BoardSnapshot)
        requires
            self@.wf(),
        ensures
            snap.board@.len() == self@.board.size(),
            forall|r: int| 0 <= r < self@.board.size() ==> (#[trigger] snap.board@[r])@.len() == self@.board.size(),
            forall|r: int, c: int| self@.board.in_bounds(r, c) ==> #[trigger] snap.board@[r]@[c] == match self@.board.at(r, c) {
                Some(id) => if self@.info.contains_key(id) { Some(self@.info[id]) } else { None },
                None => None,
            },
            snap.events@ == self@.events,
            snap.tick == self@.tick,
    {
        let n = self.board.size();
        let mut rows: Vec<Vec<Option<ClientInfo>>> = Vec::new();
        let mut r: usize = 0;
        while r < n
            invariant
                n == self@.board.size(),
                self@.wf(),
                r <= n,
                rows@.len() == r,
                forall|i: int| 0 <= i < r ==> (#[trigger] rows@[i])@.len() == n,
                forall|i: int, c: int| 0 <= i < r && 0 <= c < n ==> #[trigger] rows@[i]@[c] == match self@.board.at(i, c) {
                    Some(id) => if self@.info.contains_key(id) { Some(self@.info[id]) } else { None },
                    None => None,
                },
            decreases n - r,
        {
            let mut row: Vec<Option<ClientInfo>> = Vec::new();
            let mut c: usize = 0;
            while c < n
                invariant
                    n == self@.board.size(),
                    self@.wf(),
                    r < n,
                    c <= n,
                    row@.len() == c,
                    forall|j: int| 0 <= j < c ==> #[trigger] row@[j] == match self@.board.at(r as int, j) {
                        Some(id) => if self@.info.contains_key(id) { Some(self@.info[id]) } else { None },
                        None => None,
                    },
                decreases n - c,
            {
                let entry = match self.board.occupant(r, c) {
                    Some(id) => match self.client_info.get(&id) {
                        Some(ci) => Some(ci.duplicate()),
                        None => None,
                    },
                    None => None,
                };
                row.push(entry);
                c = c + 1;
            }
            rows.push(row);
            r = r + 1;
        }
        let mut events: Vec<String> = Vec::new();
        let mut i: usize = 0;
        while i < self.events.len()
            invariant
                i <= self.events@.len(),
                events@ == self.events@.take(i as int),
            decreases self.events@.len() - i,
        {
            events.push(self.events[i].clone());
            assert(self.events@.take(i as int + 1) == self.events@.take(i as int).push(self.events@[i as int]));
            i = i + 1;
        }
        assert(self.events@.take(self.events@.len() as int) == self.events@);
        BoardSnapshot { board: rows, events, tick: self.tick }
    }

    /// Seats hero `client_id` on `cell` with `max_life` points of life,
    /// three potions and nothing done yet; with no cell it is turned away.
    pub fn seat(&mut self, client_id: u32, cell: Option<(usize, usize)>, max_life: i32) -> (reply: ServerPacket)
        requires
            old(self)@.wf(),
            old(self)@.tick < u64::MAX,
            cell matches Some(p) ==> old(self)@.board.is_free(p.0 as int, p.1 as int),
        ensures
            final(self)@.wf(),
            seat_post(old(self)@, final(self)@, client_id, cell, max_life, reply),
    {
        match cell {
            Some((r, c)) => {
                self.board.place(client_id, r, c);
                self.client_info.insert(
                    client_id,
                    ClientInfo { id: client_id, life: max_life, max_life, potions: 3, action: text("idle") },
                );
                self.tick = self.tick + 1;
                let head = numbered_line("⚡ Cliente ", client_id, " entró en ");
                let msg = cell_message(head.as_str(), r, c, "");
                proof {
                    lemma_logs_one(self@.events, msg, EVENT_CAP as nat);
                }
                self.log(msg);
                ServerPacket::Welcome { client_id, row: r, col: c }
            },
            None => ServerPacket::Error { msg: text("Tablero lleno") },
        }
    }

    /// Seats a newly connected hero on a free cell chosen by the clock, with
    /// a maximum life between 100 and 200 also taken from the clock.
    pub fn join(&mut self, client_id: u32) -> (reply: ServerPacket)
        requires
            old(self)@.wf(),
            old(self)@.tick < u64::MAX,
        ensures
            final(self)@.wf(),
            exists|cell: Option<(usize, usize)>, max_life: i32|
                100 <= max_life <= 200
                && (cell is None <==> forall|r: int, c: int| !#[trigger] old(self)@.board.is_free(r, c))
                && (cell matches Some(p) ==> old(self)@.board.is_free(p.0 as int, p.1 as int))
                && #[trigger] seat_post(old(self)@, final(self)@, client_id, cell, max_life, reply),
    {
        let cell = self.find_free_cell();
        let nanos = clock_subsec_nanos();
        let max_life: i32 = 100 + ((nanos / 1_000_000) % 101) as i32;
        self.seat(client_id, cell, max_life)
    }

    /// The packet answering hero `client_id`'s question about its
    /// surroundings (a hero with no recorded position asks from the corner).
    pub fn query_neighbors(&self, client_id: u32) -> (reply: ServerPacket)
        requires
            self@.wf(),
        ensures
            reply matches ServerPacket::NeighborState { north, south, east, west } && {
                let (r, c) = self@.position_of(client_id);
                &&& describes(self@.board, north, 0, r as int, c as int)
                &&& describes(self@.board, south, 1, r as int, c as int)
                &&& describes(self@.board, east, 2, r as int, c as int)
                &&& describes(self@.board, west, 3, r as int, c as int)
            },
    {
        let (r, c) = match self.board.position(client_id) {
            Some(p) => p,
            None => (0, 0),
        };
        let north = self.board.neighbor(0, r, c);
        let south = self.board.neighbor(1, r, c);
        let east = self.board.neighbor(2, r, c);
        let west = self.board.neighbor(3, r, c);
        ServerPacket::NeighborState { north, south, east, west }
    }

    /// Sets the action shown for hero `id`, if it has a record.
    fn set_action(&mut self, id: u32, action: &str)
        ensures
            with_action(old(self)@.info, id, action@, final(self)@.info),
            final(self)@.board == old(self)@.board,
            final(self)@.events == old(self)@.events,
            final(self)@.tick == old(self)@.tick,
            final(self)@.next_id == old(self)@.next_id,
    {
        match self.client_info.get(&id) {
            Some(ci) => {
                let updated = ClientInfo {
                    id: ci.id,
                    life: ci.life,
                    max_life: ci.max_life,
                    potions: ci.potions,
                    action: text(action),
                };
                let ghost before = self.client_info@;
                self.client_info.insert(id, updated);
                assert(self.client_info@.dom() =~= before.dom());
            },
            None => {},
        }
    }

    /// Moves hero `client_id` to `(row, col)` when that cell is on the board
    /// and empty; otherwise refuses.
    pub fn move_client(&mut self, client_id: u32, row: usize, col: usize) -> (reply: ServerPacket)
        requires
            old(self)@.wf(),
            old(self)@.tick < u64::MAX,
        ensures
            final(self)@.wf(),
            move_post(old(self)@, final(self)@, client_id, row, col, reply),
    {
        let size = self.board.size();
        if row >= size || col >= size || self.board.occupant(row, col).is_some() {
            return ServerPacket::MoveDenied { reason: text("Casilla no disponible") };
        }
        match self.board.position(client_id) {
            Some((or, oc)) => self.board.set_cell(or, oc, None),
            None => {},
        }
        self.board.place(client_id, row, col);
        self.set_action(client_id, "move");
        self.tick = self.tick + 1;
        let head = numbered_line("🚶 Cliente ", client_id, " → ");
        let msg = cell_message(head.as_str(), row, col, "");
        proof {
            lemma_logs_one(self@.events, msg, EVENT_CAP as nat);
        }
        self.log(msg);
        ServerPacket::MoveOk { row, col }
    }

    /// Hero `client_id` attacks cell `(target_row, target_col)`: whoever
    /// stands there is to receive the damage.
    pub fn attack(&mut self, client_id: u32, target_row: usize, target_col: usize, damage: i32) -> (deliver: Option<(u32, ServerPacket)>)
        requires
            old(self)@.wf(),
            old(self)@.tick < u64::MAX,
            old(self)@.board.in_bounds(target_row as int, target_col as int),
        ensures
            final(self)@.wf(),
            attack_post(old(self)@, final(self)@, client_id, target_row, target_col, damage, deliver),
    {
        let target = self.board.occupant(target_row, target_col);
        self.set_action(client_id, "attack");
        self.tick = self.tick + 1;
        match target {
            Some(tid) => {
                let mut msg = numbered_line("⚔️  Cliente ", client_id, " atacó a ");
                msg.append(shown_number_text(tid).as_str());
                msg.append(" por ");
                msg.append(signed_text(damage as i64).as_str());
                msg.append(" daño");
                proof {
                    lemma_logs_one(self@.events, msg, EVENT_CAP as nat);
                }
                self.log(msg);
                Some((tid, ServerPacket::TakeDamage { damage, from_id: client_id }))
            },
            None => None,
        }
    }

    /// Hero `client_id` drinks a potion.
    pub fn use_potion(&mut self, client_id: u32)
        requires
            old(self)@.wf(),
            old(self)@.tick < u64::MAX,
            old(self)@.info.contains_key(client_id) ==> old(self)@.info[client_id].life + 50 <= i32::MAX,
        ensures
            final(self)@.wf(),
            potion_post(old(self)@, final(self)@, client_id),
    {
        match self.client_info.get(&client_id) {
            Some(ci) => {
                let potions = if ci.potions > 0 { ci.potions - 1 } else { 0 };
                let healed = ci.life + 50;
                let life = if healed < ci.max_life { healed } else { ci.max_life };
                let updated = ClientInfo { id: ci.id, life, max_life: ci.max_life, potions, action: text("potion") };
                let ghost before = self.client_info@;
                self.client_info.insert(client_id, updated);
                assert(self.client_info@.dom() =~= before.dom());
            },
            None => {},
        }
        self.tick = self.tick + 1;
        let msg = numbered_line("🧪 Cliente ", client_id, " usó poción");
        proof {
            lemma_logs_one(self@.events, msg, EVENT_CAP as nat);
        }
        self.log(msg);
    }

    /// Hero `client_id` takes `damage` points from hero `from_id`; returns
    /// whether it died, in which case it has left the board.
    pub fn take_damage(&mut self, client_id: u32, damage: i32, from_id: u32) -> (dead: bool)
        requires
            old(self)@.wf(),
            old(self)@.tick < u64::MAX,
            life_in_range(old(self)@.info, client_id, damage),
        ensures
            final(self)@.wf(),
            damage_post(old(self)@, final(self)@, client_id, damage, from_id, dead),
    {
        match self.client_info.get(&client_id) {
            Some(ci) => {
                let life = ci.life - damage;
                let max_life = ci.max_life;
                let updated = ClientInfo { life, ..ci.duplicate() };
                let ghost before = self.client_info@;
                self.client_info.insert(client_id, updated);
                assert(self.client_info@.dom() =~= before.dom());
                assert(self.client_info@.remove(client_id) =~= before.remove(client_id));
                self.tick = self.tick + 1;
                let mut msg = numbered_line("💢 Cliente ", client_id, " recibió ");
                msg.append(signed_text(damage as i64).as_str());
                msg.append(" daño de ");
                msg.append(shown_number_text(from_id).as_str());
                msg.append(" → ");
                msg.append(signed_text(life as i64).as_str());
                msg.append("/");
                msg.append(signed_text(max_life as i64).as_str());
                msg.append(" HP");
                let ghost e0 = self@.events;
                proof {
                    lemma_logs_one(e0, msg, EVENT_CAP as nat);
                }
                self.log(msg);
                let dead = life <= 0;
                if dead {
                    let ghost e1 = self@.events;
                    let note = numbered_line("💀 Cliente ", client_id, " ha muerto!");
                    proof {
                        lemma_logs_more(e0, e1, seq![msg@], note, EVENT_CAP as nat);
                    }
                    self.log(note);
                    let ghost e2 = self@.events;
                    self.remove_client(client_id);
                    proof {
                        assert(seq![msg@].push(note@) =~= seq![msg@, note@]);
                        lemma_logs_then_one(e0, e2, seq![msg@, note@], self@.events, removal_line(client_id), EVENT_CAP as nat);
                        assert(seq![msg@, note@].push(removal_line(client_id)) =~= seq![msg@, note@, removal_line(client_id)]);
                    }
                }
                dead
            },
            None => false,
        }
    }

    /// What the server does with packet `pkt` from the connection of hero
    /// `client_id` (the id written inside the packet is not looked at).
    pub fn handle_packet(&mut self, client_id: u32, pkt: ClientPacket) -> (out: Outcome)
        requires
            old(self)@.wf(),
            old(self)@.tick < u64::MAX,
            packet_acceptable(old(self)@, client_id, pkt),
        ensures
            final(self)@.wf(),
            handle_post(old(self)@, final(self)@, client_id, pkt, out),
    {
        match pkt {
            ClientPacket::QueryNeighbors { .. } => Outcome::Reply(self.query_neighbors(client_id)),
            ClientPacket::Move { row, col, .. } => Outcome::Reply(self.move_client(client_id, row, col)),
            ClientPacket::Attack { target_row, target_col, damage, .. } => {
                match self.attack(client_id, target_row, target_col, damage) {
                    Some((target, packet)) => Outcome::Deliver { target, packet },
                    None => Outcome::Nothing,
                }
            },
            ClientPacket::UsePotion { .. } => {
                self.use_potion(client_id);
                Outcome::Nothing
            },
            ClientPacket::Dead { .. } => {
                self.remove_client(client_id);
                Outcome::Leave
            },
        }
    }
}

/// The state after hero `id` was offered `cell` with `max_life` points.
pub open spec fn seat_post(old: ArenaView, new: ArenaView, id: u32, cell: Option<(usize, usize)>, max_life: i32, reply: ServerPacket) -> bool {
    match cell {
        Some(p) => {
            &&& new.board.cells == old.board.set(p.0 as int, p.1 as int, Some(id))
            &&& new.board.positions == old.board.positions.insert(id, p)
            &&& new.info.dom() == old.info.dom().insert(id)
            &&& forall|k: u32| k != id && #[trigger] old.info.contains_key(k) ==> new.info[k] == old.info[k]
            &&& new.info[id].id == id
            &&& new.info[id].life == max_life
            &&& new.info[id].max_life == max_life
            &&& new.info[id].potions == 3
            &&& new.info[id].action@ == "idle"@
            &&& logs_lines(old.events, new.events, seq![entry_line(id, p.0, p.1)], EVENT_CAP as nat)
            &&& new.tick == old.tick + 1
            &&& new.next_id == old.next_id
            &&& reply == ServerPacket::Welcome { client_id: id, row: p.0, col: p.1 }
        },
        None => {
            &&& new == old
            &&& reply matches ServerPacket::Error { msg } && msg@ == "Tablero lleno"@
        },
    }
}

/// A packet that the server can handle without failing: an attack aims at a
/// cell of the board, and a potion cannot push life past the `i32` range.
pub open spec fn packet_acceptable(s: ArenaView, id: u32, pkt: ClientPacket) -> bool {
    match pkt {
        ClientPacket::Attack { target_row, target_col, .. } => s.board.in_bounds(target_row as int, target_col as int),
        ClientPacket::UsePotion { .. } => s.info.contains_key(id) ==> s.info[id].life + 50 <= i32::MAX,
        _ => true,
    }
}

/// The state and outcome after the server handled `pkt` from hero `id`.
pub open spec fn handle_post(old: ArenaView, new: ArenaView, id: u32, pkt: ClientPacket, out: Outcome) -> bool {
    match pkt {
        ClientPacket::QueryNeighbors { .. } => {
            &&& new == old
            &&& out matches Outcome::Reply(ServerPacket::NeighborState { north, south, east, west }) && {
                let (r, c) = old.position_of(id);
                &&& describes(old.board, north, 0, r as int, c as int)
                &&& describes(old.board, south, 1, r as int, c as int)
                &&& describes(old.board, east, 2, r as int, c as int)
                &&& describes(old.board, west, 3, r as int, c as int)
            }
        },
        ClientPacket::Move { row, col, .. } => out matches Outcome::Reply(reply) && move_post(old, new, id, row, col, reply),
        ClientPacket::Attack { target_row, target_col, damage, .. } => {
            let deliver = match out {
                Outcome::Deliver { target, packet } => Some((target, packet)),
                _ => None,
            };
            &&& (out is Deliver || out is Nothing)
            &&& attack_post(old, new, id, target_row, target_col, damage, deliver)
        },
        ClientPacket::UsePotion { .. } => out is Nothing && potion_post(old, new, id),
        ClientPacket::Dead { .. } => out is Leave && removed(old, new, id),
    }
}

/// Whatever packet a hero sends, the board and the recorded positions keep
/// agreeing: each hero stands on exactly the cell recorded for it.
pub proof fn lemma_handle_keeps_board_consistent(old: ArenaView, new: ArenaView, id: u32, pkt: ClientPacket, out: Outcome)
    requires
        old.wf(),
        old.board.consistent(),
        handle_post(old, new, id, pkt, out),
    ensures
        new.board.consistent(),
{
    match pkt {
        ClientPacket::Move { row, col, .. } => {
            if old.board.is_free(row as int, col as int) {
                lemma_relocated_consistent(old.board, id, row, col);
                assert(new.board == relocated(old.board, id, row as int, col as int));
            }
        },
        ClientPacket::Dead { .. } => {
            lemma_taken_consistent(old.board, id);
            assert(new.board == taken(old.board, id));
        },
        _ => {},
    }
}

/// What a move writes, a neighbour's query reads: once hero `id` moved to
/// the free cell `(r, c)`, a hero standing just west of that cell sees `id`
/// to its east, one just east of it sees `id` to its west, one just north of
/// it sees `id` to its south and one just south of it sees `id` to its north.
pub proof fn lemma_move_then_seen(
    old: ArenaView,
    mid: ArenaView,
    new: ArenaView,
    id: u32,
    r: usize,
    c: usize,
    out: Outcome,
    other: u32,
    out2: Outcome,
)
    requires
        old.wf(),
        old.board.is_free(r as int, c as int),
        handle_post(old, mid, id, ClientPacket::Move { client_id: id, row: r, col: c }, out),
        handle_post(mid, new, other, ClientPacket::QueryNeighbors { client_id: other }, out2),
        mid.board.positions.contains_key(other),
    ensures
        out2 matches Outcome::Reply(ServerPacket::NeighborState { north, south, east, west }) && {
            let (orow, ocol) = mid.board.positions[other];
            &&& orow == r && ocol + 1 == c ==> east.client_id == Some(id)
            &&& orow == r && ocol == c + 1 ==> west.client_id == Some(id)
            &&& orow + 1 == r && ocol == c ==> south.client_id == Some(id)
            &&& orow == r + 1 && ocol == c ==> north.client_id == Some(id)
        },
{
    let cleared = if old.board.positions.contains_key(id) {
        old.board.set(old.board.positions[id].0 as int, old.board.positions[id].1 as int, None)
    } else {
        old.board.cells
    };
    assert(cleared.len() == old.board.cells.len());
    assert(cleared[r as int].len() == old.board.cells[r as int].len());
    assert(mid.board.size() == old.board.size());
    assert(mid.board.in_bounds(r as int, c as int));
    assert(mid.board.at(r as int, c as int) == Some(id));
}

/// Every hero with a record stands somewhere on the board.
pub open spec fn records_placed(v: ArenaView) -> bool {
    forall|id: u32| #[trigger] v.info.contains_key(id) ==> v.board.positions.contains_key(id)
}

/// Whatever packet a hero sends, every hero with a record keeps a position.
pub proof fn lemma_handle_keeps_records_placed(old: ArenaView, new: ArenaView, id: u32, pkt: ClientPacket, out: Outcome)
    requires
        records_placed(old),
        handle_post(old, new, id, pkt, out),
    ensures
        records_placed(new),
{
    assert forall|k: u32| #[trigger] new.info.contains_key(k) implies new.board.positions.contains_key(k) by {
        assert(old.info.contains_key(k));
    }
}

/// Seating a hero gives it a record and a position together.
pub proof fn lemma_seat_keeps_records_placed(old: ArenaView, new: ArenaView, id: u32, cell: Option<(usize, usize)>, max_life: i32, reply: ServerPacket)
    requires
        records_placed(old),
        seat_post(old, new, id, cell, max_life, reply),
    ensures
        records_placed(new),
{
    assert forall|k: u32| #[trigger] new.info.contains_key(k) implies new.board.positions.contains_key(k) by {
        if k != id {
            assert(old.info.contains_key(k));
        }
    }
}

/// A hit keeps every recorded hero on the board; one that dies loses its
/// record and its position together.
pub proof fn lemma_damage_keeps_records_placed(old: ArenaView, new: ArenaView, id: u32, damage: i32, from: u32, dead: bool)
    requires
        records_placed(old),
        damage_post(old, new, id, damage, from, dead),
    ensures
        records_placed(new),
{
    assert forall|k: u32| #[trigger] new.info.contains_key(k) implies new.board.positions.contains_key(k) by {
        assert(old.info.contains_key(k));
    }
}

/// Seating a hero that is not on the board yet on a free cell keeps the board
/// and the recorded positions in agreement.
pub proof fn lemma_seat_keeps_board_consistent(old: ArenaView, new: ArenaView, id: u32, cell: Option<(usize, usize)>, max_life: i32, reply: ServerPacket)
    requires
        old.wf(),
        old.board.consistent(),
        !old.board.positions.contains_key(id),
        cell matches Some(p) ==> old.board.is_free(p.0 as int, p.1 as int),
        seat_post(old, new, id, cell, max_life, reply),
    ensures
        new.board.consistent(),
{
    if let Some(p) = cell {
        lemma_relocated_consistent(old.board, id, p.0, p.1);
        assert(new.board == relocated(old.board, id, p.0 as int, p.1 as int));
    }
}

/// Damage keeps the board and the recorded positions in agreement, also when
/// the hero dies of it.
pub proof fn lemma_damage_keeps_board_consistent(old: ArenaView, new: ArenaView, id: u32, damage: i32, from: u32, dead: bool)
    requires
        old.wf(),
        old.board.consistent(),
        damage_post(old, new, id, damage, from, dead),
    ensures
        new.board.consistent(),
{
    if dead {
        lemma_taken_consistent(old.board, id);
        assert(new.board == taken(old.board, id));
    }
}

} // verus!
