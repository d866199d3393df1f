use vstd::prelude::*;
use vstd::string::*;
use crate::dice::{calc_damage, random_index, throw_damage};
use crate::orb::{OrbReply, OrbRequest};
use crate::protocol::{CellState, ClientPacket, ServerPacket, text};

verus! {

/// Which direction a label names: 0 north, 1 south, 2 east, 3 west, 4 none.
pub open spec fn label_index(dir: Seq<char>) -> int {
    if dir == seq!['N'] {
        0
    } else if dir == seq!['S'] {
        1
    } else if dir == seq!['E'] {
        2
    } else if dir == seq!['W'] {
        3
    } else {
        4
    }
}

/// The direction that label `dir` names, as in [`label_index`].
pub fn label_of(dir: &str) -> (i: usize)
    ensures
        i == label_index(dir@),
{
    if dir.unicode_len() != 1 {
        return 4;
    }
    let ch = dir.get_char(0);
    assert(dir@ =~= seq![ch]);
    if ch == 'N' {
        0
    } else if ch == 'S' {
        1
    } else if ch == 'E' {
        2
    } else if ch == 'W' {
        3
    } else {
        4
    }
}

/// The cell one step from `(row, col)` in the direction labelled `dir`; a
/// step off the top or the left edge stays on the edge, and with `clamp` a
/// step off the bottom or the right edge of a ten-by-ten board stays on the
/// edge too. An unknown label stays put.
pub open spec fn step_coords(row: usize, col: usize, dir: Seq<char>, clamp: bool) -> (usize, usize) {
    let down = if clamp && row + 1 > 9 { 9 } else { row + 1 };
    let right = if clamp && col + 1 > 9 { 9 } else { col + 1 };
    let i = label_index(dir);
    if i == 0 {
        (if row >= 1 { (row - 1) as usize } else { 0 }, col)
    } else if i == 1 {
        (down as usize, col)
    } else if i == 2 {
        (row, right as usize)
    } else if i == 3 {
        (row, if col >= 1 { (col - 1) as usize } else { 0 })
    } else {
        (row, col)
    }
}

/// A step from `(row, col)` in direction `dir` stays within the range of
/// `usize`: a step south needs a row below the largest, a step east a column
/// below the largest.
pub open spec fn step_fits(row: usize, col: usize, dir: Seq<char>) -> bool {
    &&& label_index(dir) == 1 ==> row < usize::MAX
    &&& label_index(dir) == 2 ==> col < usize::MAX
}

/// Absolute coordinates of the cell one step from `(row, col)` in direction
/// `dir` (`"N"`, `"S"`, `"E"`, `"W"`), on an unbounded board.
pub fn dir_to_coords(row: usize, col: usize, dir: &str) -> (p: (usize, usize))
    requires
        step_fits(row, col, dir@),
    ensures
        p == step_coords(row, col, dir@, false),
{
    step(row, col, dir, false)
}

/// Absolute coordinates of the cell one step from `(row, col)` in direction
/// `dir` on the ten-by-ten board: steps never leave it.
pub fn dir_to_coords_bounded(row: usize, col: usize, dir: &str) -> (p: (usize, usize))
    requires
        step_fits(row, col, dir@),
    ensures
        p == step_coords(row, col, dir@, true),
{
    step(row, col, dir, true)
}

/// A step under "N" goes one row up, "S" one row down, "E" one column
/// right and "W" one column left; a step up or left from the first row or
/// column stays there, and on the ten-by-ten board a step down or right
/// from the last row or column stays there. Any other label stays put.
pub proof fn lemma_step_directions(row: usize, col: usize, dir: Seq<char>, clamp: bool)
    requires
        step_fits(row, col, dir),
    ensures
        dir == "N"@ ==> step_coords(row, col, dir, clamp) == (if row >= 1 { (row - 1) as usize } else { 0usize }, col),
        dir == "S"@ ==> step_coords(row, col, dir, clamp) == (if clamp && row >= 9 { 9usize } else { (row + 1) as usize }, col),
        dir == "E"@ ==> step_coords(row, col, dir, clamp) == (row, if clamp && col >= 9 { 9usize } else { (col + 1) as usize }),
        dir == "W"@ ==> step_coords(row, col, dir, clamp) == (row, if col >= 1 { (col - 1) as usize } else { 0usize }),
        dir != "N"@ && dir != "S"@ && dir != "E"@ && dir != "W"@ ==> step_coords(row, col, dir, clamp) == (row, col),
{
    reveal_strlit("N");
    reveal_strlit("S");
    reveal_strlit("E");
    reveal_strlit("W");
    assert("N"@ =~= seq!['N']);
    assert("S"@ =~= seq!['S']);
    assert("E"@ =~= seq!['E']);
    assert("W"@ =~= seq!['W']);
    assert(seq!['N'][0] != seq!['S'][0]);
    assert(seq!['N'][0] != seq!['E'][0]);
    assert(seq!['N'][0] != seq!['W'][0]);
    assert(seq!['S'][0] != seq!['E'][0]);
    assert(seq!['S'][0] != seq!['W'][0]);
    assert(seq!['E'][0] != seq!['W'][0]);
}

/// On the unbounded board a step and a step back return to the start: north
/// then south from any row but the top one, south then north from any row
/// below the largest, and likewise west then east and east then west.
pub proof fn lemma_step_back(row: usize, col: usize)
    ensures
        row >= 1 ==> {
            let (r, c) = step_coords(row, col, seq!['N'], false);
            step_fits(r, c, seq!['S']) && step_coords(r, c, seq!['S'], false) == (row, col)
        },
        row < usize::MAX ==> {
            let (r, c) = step_coords(row, col, seq!['S'], false);
            step_fits(r, c, seq!['N']) && step_coords(r, c, seq!['N'], false) == (row, col)
        },
        col >= 1 ==> {
            let (r, c) = step_coords(row, col, seq!['W'], false);
            step_fits(r, c, seq!['E']) && step_coords(r, c, seq!['E'], false) == (row, col)
        },
        col < usize::MAX ==> {
            let (r, c) = step_coords(row, col, seq!['E'], false);
            step_fits(r, c, seq!['W']) && step_coords(r, c, seq!['W'], false) == (row, col)
        },
{
    assert(seq!['N'][0] != seq!['S'][0]);
    assert(seq!['N'][0] != seq!['E'][0]);
    assert(seq!['N'][0] != seq!['W'][0]);
    assert(seq!['S'][0] != seq!['E'][0]);
    assert(seq!['S'][0] != seq!['W'][0]);
    assert(seq!['E'][0] != seq!['W'][0]);
}

fn step(row: usize, col: usize, dir: &str, clamp: bool) -> (p: (usize, usize))
    requires
        step_fits(row, col, dir@),
    ensures
        p == step_coords(row, col, dir@, clamp),
{
    let i = label_of(dir);
    if i == 0 {
        (if row >= 1 { row - 1 } else { 0 }, col)
    } else if i == 1 {
        (if clamp && row + 1 > 9 { 9 } else { row + 1 }, col)
    } else if i == 2 {
        (row, if clamp && col + 1 > 9 { 9 } else { col + 1 })
    } else if i == 3 {
        (row, if col >= 1 { col - 1 } else { 0 })
    } else {
        (row, col)
    }
}

/// Which game the hero plays: the single server of the first dungeon, the
/// zoned board whose servers may send it elsewhere, or the zoned board where
/// attacks go through the broker.
#[derive(Clone, Copy, PartialEq, Eq, Structural)]
pub enum Variant {
    SingleServer,
    Zoned,
    Brokered,
}

/// Where a hero's session stands.
#[derive(Clone, Copy, PartialEq, Eq, Structural)]
pub enum Phase {
    /// Waiting for the server to welcome it.
    AwaitWelcome,
    /// Taking in pending damage before the next turn.
    Draining,
    /// Waiting for the description of its surroundings.
    AwaitNeighbors,
    /// Waiting for the answer to a move.
    AwaitMoveReply,
    /// Waiting for the broker to carry out an attack.
    AwaitAttackResult,
    /// The session is over.
    Done,
}

/// The hero as one session with a server sees it.
#[derive(Clone, Copy)]
pub struct Session {
    pub variant: Variant,
    pub phase: Phase,
    pub client_id: u32,
    pub row: usize,
    pub col: usize,
    pub life: i32,
    pub max_life: i32,
    pub potions: u32,
    /// The cell to start from instead of the one the server names, when the
    /// hero was sent here by another server.
    pub entry: Option<(usize, usize)>,
    /// The attack handed to the broker, while its answer is awaited.
    pub pending: Option<(usize, usize, i32)>,
}

/// What the program around the session does next.
pub enum Command {
    /// Receive the next packet.
    Listen,
    /// Send this packet, then receive.
    Send(ClientPacket),
    /// Send this packet, wait this many milliseconds, then receive.
    SendAndPause(ClientPacket, u64),
    /// Wait this many milliseconds, then receive.
    Pause(u64),
    /// Ask the broker to carry out this attack and report its answer.
    Invoke { target_row: usize, target_col: usize, damage: i32 },
    /// Tell the server that the hero died, and end.
    Die,
    /// End; with an address, continue at that server from the given cell.
    Finish(Option<(String, usize, usize)>),
}

/// How the broker dealt with an attack.
#[derive(Clone, Copy, PartialEq, Eq, Structural)]
pub enum BrokerAnswer {
    /// The attack went through.
    Hit,
    /// Nobody stood on the target cell.
    TargetMissing,
    /// The broker could not be reached or failed.
    Failed,
}

/// Indices of the neighbours that are on the board and whose occupancy is
/// `occupied`, in order.
pub open spec fn matching(nb: Seq<CellState>, occupied: bool) -> Seq<int>
    decreases nb.len(),
{
    if nb.len() == 0 {
        Seq::empty()
    } else {
        let prev = matching(nb.drop_last(), occupied);
        let last = nb.last();
        if last.in_bounds && last.occupied == occupied {
            prev.push(nb.len() - 1)
        } else {
            prev
        }
    }
}

/// The session after the hero took `damage` points: at zero life or below it
/// dies and the session ends.
pub open spec fn hit(s: Session, damage: i32) -> (Session, Command) {
    let life = s.life - damage;
    if life <= 0 {
        (Session { life: life as i32, phase: Phase::Done, ..s }, Command::Die)
    } else {
        (Session { life: life as i32, ..s }, Command::Listen)
    }
}

/// The hero's turn, given its surroundings `nb`, the index `pick` used to
/// choose among candidate cells and the `damage` of an attack: below half
/// life with a potion left it drinks (up to 50 points, never past its
/// maximum); at half life or more next to an occupied cell it attacks one of
/// them; otherwise it steps to a free neighbouring cell, or waits.
pub open spec fn decide(s: Session, nb: Seq<CellState>, pick: usize, damage: i32) -> (Session, Command) {
    let occ = matching(nb, true);
    let free = matching(nb, false);
    let clamp = s.variant != Variant::SingleServer;
    if 2 * s.life < s.max_life && s.potions > 0 {
        let heal = if 50 < s.max_life - s.life { 50 } else { s.max_life - s.life };
        (
            Session { potions: (s.potions - 1) as u32, life: (s.life + heal) as i32, phase: Phase::Draining, ..s },
            Command::SendAndPause(ClientPacket::UsePotion { client_id: s.client_id }, 800),
        )
    } else if 2 * s.life >= s.max_life && occ.len() > 0 {
        let target = nb[occ[pick as int % occ.len() as int]];
        let (tr, tc) = step_coords(s.row, s.col, target.direction@, clamp);
        if s.variant == Variant::Brokered {
            (
                Session { phase: Phase::AwaitAttackResult, pending: Some((tr, tc, damage)), ..s },
                Command::Invoke { target_row: tr, target_col: tc, damage },
            )
        } else {
            (
                Session { phase: Phase::Draining, ..s },
                Command::SendAndPause(
                    ClientPacket::Attack { client_id: s.client_id, target_row: tr, target_col: tc, damage },
                    800,
                ),
            )
        }
    } else if free.len() > 0 {
        let target = nb[free[pick as int % free.len() as int]];
        let (nr, nc) = step_coords(s.row, s.col, target.direction@, clamp);
        (
            Session { phase: Phase::AwaitMoveReply, ..s },
            Command::Send(ClientPacket::Move { client_id: s.client_id, row: nr, col: nc }),
        )
    } else {
        (Session { phase: Phase::Draining, ..s }, Command::Pause(800))
    }
}

/// What a read of the connection to the server gave.
pub enum Arrival {
    /// A packet.
    Packet(ServerPacket),
    /// Nothing usable in time: the read timed out, or what came was no packet.
    Quiet,
    /// The server closed the connection, or it broke.
    Closed,
}

/// The session after `pkt` arrived, with `pick` and `damage` the chance
/// values of a turn. A lost connection ends the session.
pub open spec fn session_next(s: Session, pkt: Arrival, pick: usize, damage: i32) -> (Session, Command) {
    let redirects = s.variant != Variant::SingleServer;
    if pkt is Closed {
        (Session { phase: Phase::Done, pending: None, ..s }, Command::Finish(None))
    } else {
        match s.phase {
            Phase::AwaitWelcome => match pkt {
                Arrival::Packet(ServerPacket::Welcome { client_id, row, col }) => {
                    let (r, c) = match s.entry {
                        Some(e) => e,
                        None => (row, col),
                    };
                    (Session { client_id, row: r, col: c, phase: Phase::Draining, ..s }, Command::Listen)
                },
                Arrival::Packet(ServerPacket::Error { .. }) => (Session { phase: Phase::Done, ..s }, Command::Finish(None)),
                _ => (s, Command::Listen),
            },
            Phase::Draining => match pkt {
                Arrival::Packet(ServerPacket::TakeDamage { damage: d, .. }) => hit(s, d),
                Arrival::Packet(ServerPacket::YouDied) => (Session { phase: Phase::Done, ..s }, Command::Finish(None)),
                Arrival::Packet(ServerPacket::Redirect { tcp_addr, row, col }) if redirects => {
                    (Session { phase: Phase::Done, ..s }, Command::Finish(Some((tcp_addr, row, col))))
                },
                _ => (
                    Session { phase: Phase::AwaitNeighbors, ..s },
                    Command::Send(ClientPacket::QueryNeighbors { client_id: s.client_id }),
                ),
            },
            Phase::AwaitNeighbors => match pkt {
                Arrival::Packet(ServerPacket::NeighborState { north, south, east, west }) => decide(s, seq![north, south, east, west], pick, damage),
                Arrival::Packet(ServerPacket::TakeDamage { damage: d, .. }) => hit(s, d),
                _ => (Session { phase: Phase::Draining, ..s }, Command::Pause(500)),
            },
            Phase::AwaitMoveReply => match pkt {
                Arrival::Packet(ServerPacket::MoveOk { row, col }) => (Session { row, col, phase: Phase::Draining, ..s }, Command::Pause(800)),
                Arrival::Packet(ServerPacket::TakeDamage { damage: d, .. }) => hit(s, d),
                Arrival::Packet(ServerPacket::Redirect { tcp_addr, row, col }) if redirects => {
                    (Session { phase: Phase::Done, ..s }, Command::Finish(Some((tcp_addr, row, col))))
                },
                _ => (Session { phase: Phase::Draining, ..s }, Command::Pause(800)),
            },
            Phase::AwaitAttackResult => (s, Command::Listen),
            Phase::Done => (s, Command::Finish(None)),
        }
    }
}

/// The session is in a state a live hero can be in.
pub open spec fn session_wf(s: Session) -> bool {
    &&& s.max_life > 0
    &&& s.phase != Phase::Done ==> s.life > 0
    &&& s.phase == Phase::AwaitAttackResult <==> s.pending is Some
}

/// `pkt` can be taken in without leaving the `i32` range or the `usize`
/// range of coordinates.
pub open spec fn packet_ok(s: Session, pkt: Arrival) -> bool {
    match pkt {
        Arrival::Packet(ServerPacket::TakeDamage { damage, .. }) => i32::MIN <= s.life - damage <= i32::MAX,
        Arrival::Packet(ServerPacket::NeighborState { north, south, east, west }) => s.phase == Phase::AwaitNeighbors
            ==> neighbours_fit(s.row, s.col, seq![north, south, east, west]),
        _ => true,
    }
}

/// A step from `(row, col)` toward any neighbour on the board stays within
/// the range of `usize`.
pub open spec fn neighbours_fit(row: usize, col: usize, nb: Seq<CellState>) -> bool {
    forall|i: int| 0 <= i < nb.len() && (#[trigger] nb[i]).in_bounds ==> step_fits(row, col, nb[i].direction@)
}

/// When the hero's surroundings arrive, a hero below half its life with a
/// potion left drinks one: it tells the server, has one potion fewer and
/// heals 50 points without passing its maximum. At half its life or more it
/// drinks none and its life and potions stay as they were.
pub proof fn lemma_turn_potion(s: Session, north: CellState, south: CellState, east: CellState, west: CellState, pick: usize, damage: i32)
    requires
        session_wf(s),
        s.phase == Phase::AwaitNeighbors,
    ensures
        ({
            let (t, cmd) = session_next(s, Arrival::Packet(ServerPacket::NeighborState { north, south, east, west }), pick, damage);
            &&& 2 * s.life < s.max_life && s.potions > 0 ==> {
                &&& cmd == Command::SendAndPause(ClientPacket::UsePotion { client_id: s.client_id }, 800)
                &&& t.potions == s.potions - 1
                &&& t.life == if s.life + 50 <= s.max_life { s.life + 50 } else { s.max_life as int }
            }
            &&& 2 * s.life >= s.max_life ==> {
                &&& !(cmd matches Command::SendAndPause(ClientPacket::UsePotion { .. }, _))
                &&& t.potions == s.potions
                &&& t.life == s.life
            }
        }),
{
}

/// The cells that [`matching`] lists are neighbours on the board with the
/// occupancy asked for, and it lists one whenever there is such a neighbour.
proof fn lemma_matching_in_bounds(nb: Seq<CellState>, occupied: bool)
    ensures
        forall|i: int| 0 <= i < matching(nb, occupied).len() ==> 0 <= #[trigger] matching(nb, occupied)[i] < nb.len()
            && nb[matching(nb, occupied)[i]].in_bounds && nb[matching(nb, occupied)[i]].occupied == occupied,
        (exists|j: int| 0 <= j < nb.len() && (#[trigger] nb[j]).in_bounds && nb[j].occupied == occupied)
            ==> matching(nb, occupied).len() > 0,
    decreases nb.len(),
{
    if nb.len() > 0 {
        lemma_matching_in_bounds(nb.drop_last(), occupied);
        let prev = matching(nb.drop_last(), occupied);
        assert forall|i: int| 0 <= i < prev.len() implies nb[prev[i]] == nb.drop_last()[prev[i]] by {}
        if exists|j: int| 0 <= j < nb.len() && (#[trigger] nb[j]).in_bounds && nb[j].occupied == occupied {
            let j = choose|j: int| 0 <= j < nb.len() && (#[trigger] nb[j]).in_bounds && nb[j].occupied == occupied;
            if j < nb.len() - 1 {
                assert(nb.drop_last()[j] == nb[j]);
            }
        }
    }
}

/// `cmd` attacks cell `(r, c)` with `damage`: through the broker in the
/// brokered game, by a packet to the server otherwise.
pub open spec fn attack_command(s: Session, cmd: Command, r: usize, c: usize, damage: i32) -> bool {
    if s.variant == Variant::Brokered {
        cmd == (Command::Invoke { target_row: r, target_col: c, damage })
    } else {
        cmd == Command::SendAndPause(ClientPacket::Attack { client_id: s.client_id, target_row: r, target_col: c, damage }, 800)
    }
}

/// A hero that does not drink attacks when it has half its life or more and
/// a neighbour on the board is occupied: the cell attacked is the one a step
/// toward such a neighbour reaches. Otherwise it steps toward a neighbour on
/// the board that is free, and with no such neighbour it waits.
pub proof fn lemma_turn_targets(s: Session, nb: Seq<CellState>, pick: usize, damage: i32)
    ensures
        ({
            let (t, cmd) = decide(s, nb, pick, damage);
            let clamp = s.variant != Variant::SingleServer;
            let drinks = 2 * s.life < s.max_life && s.potions > 0;
            let fights = 2 * s.life >= s.max_life
                && exists|j: int| 0 <= j < nb.len() && (#[trigger] nb[j]).in_bounds && nb[j].occupied;
            let walks = exists|j: int| 0 <= j < nb.len() && (#[trigger] nb[j]).in_bounds && !nb[j].occupied;
            &&& !drinks && fights ==> exists|j: int| {
                &&& 0 <= j < nb.len() && (#[trigger] nb[j]).in_bounds && nb[j].occupied
                &&& {
                    let (r, c) = step_coords(s.row, s.col, nb[j].direction@, clamp);
                    attack_command(s, cmd, r, c, damage)
                }
            }
            &&& !drinks && !fights && walks ==> exists|j: int| {
                &&& 0 <= j < nb.len() && (#[trigger] nb[j]).in_bounds && !nb[j].occupied
                &&& {
                    let (r, c) = step_coords(s.row, s.col, nb[j].direction@, clamp);
                    cmd == Command::Send(ClientPacket::Move { client_id: s.client_id, row: r, col: c })
                }
            }
            &&& !drinks && !fights && !walks ==> cmd == Command::Pause(800)
        }),
{
    lemma_matching_in_bounds(nb, true);
    lemma_matching_in_bounds(nb, false);
    let occ = matching(nb, true);
    let free = matching(nb, false);
    if occ.len() > 0 {
        let j = occ[pick as int % occ.len() as int];
        assert(0 <= j < nb.len() && nb[j].in_bounds && nb[j].occupied);
    }
    if free.len() > 0 {
        let j = free[pick as int % free.len() as int];
        assert(0 <= j < nb.len() && nb[j].in_bounds && !nb[j].occupied);
    }
}

/// A new session of a hero with `life` out of `max_life` points and
/// `potions`, entering at `entry` when another server sent it.
pub fn new_session(variant: Variant, life: i32, max_life: i32, potions: u32, entry: Option<(usize, usize)>) -> (s: Session)
    requires
        max_life > 0,
        life > 0,
    ensures
        session_wf(s),
        s == (Session { variant, phase: Phase::AwaitWelcome, client_id: 0, row: 0, col: 0, life, max_life, potions, entry, pending: None }),
{
    Session { variant, phase: Phase::AwaitWelcome, client_id: 0, row: 0, col: 0, life, max_life, potions, entry, pending: None }
}

/// Indices of the neighbours that are on the board and whose occupancy is
/// `occupied`.
fn matching_cells(nb: &Vec<CellState>, occupied: bool) -> (out: Vec<usize>)
    ensures
        out@.len() == matching(nb@, occupied).len(),
        forall|i: int| 0 <= i < out@.len() ==> out@[i] as int == #[trigger] matching(nb@, occupied)[i],
        forall|i: int| 0 <= i < out@.len() ==> out@[i] < nb@.len(),
{
    let mut out: Vec<usize> = Vec::new();
    let mut i: usize = 0;
    while i < nb.len()
        invariant
            i <= nb@.len(),
            out@.len() == matching(nb@.take(i as int), occupied).len(),
            forall|j: int| 0 <= j < out@.len() ==> out@[j] as int == #[trigger] matching(nb@.take(i as int), occupied)[j],
            forall|j: int| 0 <= j < out@.len() ==> out@[j] < i,
        decreases nb@.len() - i,
    {
        assert(nb@.take(i as int + 1).drop_last() == nb@.take(i as int));
        if nb[i].in_bounds && nb[i].occupied == occupied {
            out.push(i);
        }
        i = i + 1;
    }
    assert(nb@.take(nb@.len() as int) == nb@);
    out
}

impl Session {
    /// Takes `damage` points.
    fn take_hit(&mut self, damage: i32) -> (cmd: Command)
        requires
            i32::MIN <= old(self).life - damage <= i32::MAX,
        ensures
            (*final(self), cmd) == hit(*old(self), damage),
    {
        self.life = self.life - damage;
        if self.life <= 0 {
            self.phase = Phase::Done;
            Command::Die
        } else {
            Command::Listen
        }
    }

    /// The hero's turn, as in [`decide`].
    fn turn(&mut self, nb: Vec<CellState>, pick: usize, damage: i32) -> (cmd: Command)
        requires
            session_wf(*old(self)),
            old(self).phase != Phase::Done,
            neighbours_fit(old(self).row, old(self).col, nb@),
        ensures
            (*final(self), cmd) == decide(*old(self), nb@, pick, damage),
    {
        proof {
            lemma_matching_in_bounds(nb@, true);
            lemma_matching_in_bounds(nb@, false);
        }
        let occ = matching_cells(&nb, true);
        let free = matching_cells(&nb, false);
        let clamp = self.variant != Variant::SingleServer;
        let life = self.life as i64;
        let max_life = self.max_life as i64;
        if 2 * life < max_life && self.potions > 0 {
            let room = self.max_life - self.life;
            let heal = if 50 < room { 50 } else { room };
            self.potions = self.potions - 1;
            self.life = self.life + heal;
            self.phase = Phase::Draining;
            Command::SendAndPause(ClientPacket::UsePotion { client_id: self.client_id }, 800)
        } else if 2 * life >= max_life && occ.len() > 0 {
            let j = pick % occ.len();
            let k = occ[j];
            assert(k as int == matching(nb@, true)[j as int]);
            assert(nb@[k as int].in_bounds);
            let (tr, tc) = step(self.row, self.col, nb[k].direction.as_str(), clamp);
            if self.variant == Variant::Brokered {
                self.phase = Phase::AwaitAttackResult;
                self.pending = Some((tr, tc, damage));
                Command::Invoke { target_row: tr, target_col: tc, damage }
            } else {
                self.phase = Phase::Draining;
                Command::SendAndPause(
                    ClientPacket::Attack { client_id: self.client_id, target_row: tr, target_col: tc, damage },
                    800,
                )
            }
        } else if free.len() > 0 {
            let j = pick % free.len();
            let k = free[j];
            assert(k as int == matching(nb@, false)[j as int]);
            assert(nb@[k as int].in_bounds);
            let (nr, nc) = step(self.row, self.col, nb[k].direction.as_str(), clamp);
            self.phase = Phase::AwaitMoveReply;
            Command::Send(ClientPacket::Move { client_id: self.client_id, row: nr, col: nc })
        } else {
            self.phase = Phase::Draining;
            Command::Pause(800)
        }
    }

    /// Takes in what the connection gave, with `pick` and `damage` the chance
    /// values of a turn.
    pub fn on_packet_with(&mut self, pkt: Arrival, pick: usize, damage: i32) -> (cmd: Command)
        requires
            session_wf(*old(self)),
            packet_ok(*old(self), pkt),
        ensures
            (*final(self), cmd) == session_next(*old(self), pkt, pick, damage),
            session_wf(*final(self)),
    {
        let redirects = self.variant != Variant::SingleServer;
        if let Arrival::Closed = pkt {
            self.phase = Phase::Done;
            self.pending = None;
            return Command::Finish(None);
        }
        match self.phase {
            Phase::AwaitWelcome => match pkt {
                Arrival::Packet(ServerPacket::Welcome { client_id, row, col }) => {
                    let (r, c) = match self.entry {
                        Some(e) => e,
                        None => (row, col),
                    };
                    self.client_id = client_id;
                    self.row = r;
                    self.col = c;
                    self.phase = Phase::Draining;
                    Command::Listen
                },
                Arrival::Packet(ServerPacket::Error { .. }) => {
                    self.phase = Phase::Done;
                    Command::Finish(None)
                },
                _ => Command::Listen,
            },
            Phase::Draining => match pkt {
                Arrival::Packet(ServerPacket::TakeDamage { damage: d, .. }) => self.take_hit(d),
                Arrival::Packet(ServerPacket::YouDied) => {
                    self.phase = Phase::Done;
                    Command::Finish(None)
                },
                Arrival::Packet(ServerPacket::Redirect { tcp_addr, row, col }) if redirects => {
                    self.phase = Phase::Done;
                    Command::Finish(Some((tcp_addr, row, col)))
                },
                _ => {
                    self.phase = Phase::AwaitNeighbors;
                    Command::Send(ClientPacket::QueryNeighbors { client_id: self.client_id })
                },
            },
            Phase::AwaitNeighbors => match pkt {
                Arrival::Packet(ServerPacket::NeighborState { north, south, east, west }) => {
                    let nb = vec![north, south, east, west];
                    assert(nb@ =~= seq![north, south, east, west]);
                    self.turn(nb, pick, damage)
                },
                Arrival::Packet(ServerPacket::TakeDamage { damage: d, .. }) => self.take_hit(d),
                _ => {
                    self.phase = Phase::Draining;
                    Command::Pause(500)
                },
            },
            Phase::AwaitMoveReply => match pkt {
                Arrival::Packet(ServerPacket::MoveOk { row, col }) => {
                    self.row = row;
                    self.col = col;
                    self.phase = Phase::Draining;
                    Command::Pause(800)
                },
                Arrival::Packet(ServerPacket::TakeDamage { damage: d, .. }) => self.take_hit(d),
                Arrival::Packet(ServerPacket::Redirect { tcp_addr, row, col }) if redirects => {
                    self.phase = Phase::Done;
                    Command::Finish(Some((tcp_addr, row, col)))
                },
                _ => {
                    self.phase = Phase::Draining;
                    Command::Pause(800)
                },
            },
            Phase::AwaitAttackResult => Command::Listen,
            Phase::Done => Command::Finish(None),
        }
    }

    /// Takes in packet `pkt`, throwing the dice and choosing the target cell
    /// at random when the hero's turn comes (the choice is drawn below 12, a
    /// multiple of every possible number of candidate cells, so that each
    /// candidate is equally likely).
    pub fn on_packet(&mut self, pkt: Arrival) -> (cmd: Command)
        requires
            session_wf(*old(self)),
            packet_ok(*old(self), pkt),
        ensures
            session_wf(*final(self)),
            exists|pick: usize, d20: int, a: int, b: int|
                1 <= d20 <= 20 && 1 <= a <= 8 && 1 <= b <= 8 && pick < 12
                && (*final(self), cmd) == #[trigger] session_next(*old(self), pkt, pick, throw_damage(d20, a, b) as i32),
    {
        let ghost start = *self;
        let ghost p = pkt;
        let damage = calc_damage();
        let pick = random_index(12);
        let cmd = self.on_packet_with(pkt, pick, damage);
        proof {
            let (d20, a, b) = choose|d20: int, a: int, b: int|
                1 <= d20 <= 20 && 1 <= a <= 8 && 1 <= b <= 8 && damage == #[trigger] throw_damage(d20, a, b);
            assert(throw_damage(d20, a, b) as i32 == damage);
            assert((*self, cmd) == session_next(start, p, pick, throw_damage(d20, a, b) as i32));
        }
        cmd
    }

    /// Takes in the broker's answer to the pending attack: when the broker
    /// failed, the attack goes to the server instead.
    pub fn on_broker_answer(&mut self, answer: BrokerAnswer) -> (cmd: Command)
        requires
            session_wf(*old(self)),
        ensures
            session_wf(*final(self)),
            (*final(self), cmd) == broker_next(*old(self), answer),
    {
        match self.pending {
            Some((tr, tc, damage)) => {
                self.pending = None;
                self.phase = Phase::Draining;
                match answer {
                    BrokerAnswer::Failed => Command::SendAndPause(
                        ClientPacket::Attack { client_id: self.client_id, target_row: tr, target_col: tc, damage },
                        800,
                    ),
                    _ => Command::Pause(800),
                }
            },
            None => Command::Listen,
        }
    }
}

/// The session after the broker answered the pending attack.
pub open spec fn broker_next(s: Session, answer: BrokerAnswer) -> (Session, Command) {
    match s.pending {
        Some((tr, tc, damage)) => (
            Session { pending: None, phase: Phase::Draining, ..s },
            if answer == BrokerAnswer::Failed {
                Command::SendAndPause(ClientPacket::Attack { client_id: s.client_id, target_row: tr, target_col: tc, damage }, 800)
            } else {
                Command::Pause(800)
            },
        ),
        None => (s, Command::Listen),
    }
}

/// `s` begins with `p`.
pub open spec fn text_starts_with(s: Seq<char>, p: Seq<char>) -> bool {
    p.len() <= s.len() && s.subrange(0, p.len() as int) == p
}

/// Whether `s` begins with `p`.
pub fn starts_with(s: &str, p: &str) -> (b: bool)
    ensures
        b == text_starts_with(s@, p@),
{
    let n = p.unicode_len();
    let m = s.unicode_len();
    if n > m {
        return false;
    }
    let mut i: usize = 0;
    while i < n
        invariant
            n == p@.len(),
            m == s@.len(),
            n <= m,
            i <= n,
            s@.subrange(0, i as int) == p@.subrange(0, i as int),
        decreases n - i,
    {
        if s.get_char(i) != p.get_char(i) {
            assert(s@.subrange(0, n as int)[i as int] != p@[i as int]);
            assert(p@.subrange(0, n as int) == p@);
            return false;
        }
        assert(s@.subrange(0, i as int + 1) =~= s@.subrange(0, i as int).push(s@[i as int]));
        assert(p@.subrange(0, i as int + 1) =~= p@.subrange(0, i as int).push(p@[i as int]));
        i = i + 1;
    }
    assert(p@.subrange(0, n as int) == p@);
    true
}

/// The broker's answer as a hero reads it: an attack result is a hit; a
/// missing target, or an error whose message starts with
/// `target_not_found`, is a miss; anything else is a failure.
pub fn broker_answer(reply: &OrbReply) -> (a: BrokerAnswer)
    ensures
        a == match reply {
            OrbReply::AttackResult { .. } => BrokerAnswer::Hit,
            OrbReply::TargetNotFound { .. } => BrokerAnswer::TargetMissing,
            OrbReply::Error { msg, .. } => if text_starts_with(msg@, "target_not_found"@) {
                BrokerAnswer::TargetMissing
            } else {
                BrokerAnswer::Failed
            },
            _ => BrokerAnswer::Failed,
        },
{
    match reply {
        OrbReply::AttackResult { .. } => BrokerAnswer::Hit,
        OrbReply::TargetNotFound { .. } => BrokerAnswer::TargetMissing,
        OrbReply::Error { msg, .. } => {
            if starts_with(msg.as_str(), "target_not_found") {
                BrokerAnswer::TargetMissing
            } else {
                BrokerAnswer::Failed
            }
        },
        _ => BrokerAnswer::Failed,
    }
}

/// A hero's proxy for attacks through the broker: the broker's address and
/// the id of the next request.
pub struct AttackStub {
    pub orb_addr: String,
    pub next_request: u64,
}

/// The next request id of a stub that started at `start` after `calls`
/// requests.
pub open spec fn counter_after(start: u64, calls: nat) -> u64
    decreases calls,
{
    if calls == 0 {
        start
    } else {
        counter_after(start, (calls - 1) as nat).wrapping_add(1)
    }
}

/// A new stub numbers its requests one after another: after `calls`
/// requests, whatever became of them, the next one gets id `calls + 1`,
/// wrapping around past the largest `u64`.
pub proof fn lemma_request_ids_count_up(calls: nat)
    ensures
        counter_after(1, calls) as int == (calls as int + 1) % 0x1_0000_0000_0000_0000int,
    decreases calls,
{
    if calls > 0 {
        lemma_request_ids_count_up((calls - 1) as nat);
        vstd::arithmetic::div_mod::lemma_add_mod_noop(calls as int, 1, 0x1_0000_0000_0000_0000int);
        vstd::arithmetic::div_mod::lemma_small_mod(1nat, 0x1_0000_0000_0000_0000nat);
        let prev = counter_after(1, (calls - 1) as nat);
        if prev as int + 1 == 0x1_0000_0000_0000_0000int {
            vstd::arithmetic::div_mod::lemma_mod_self_0(0x1_0000_0000_0000_0000int);
        } else {
            vstd::arithmetic::div_mod::lemma_small_mod((prev + 1) as nat, 0x1_0000_0000_0000_0000nat);
        }
    }
}

impl AttackStub {
    /// A stub for the broker at `127.0.0.1:8500`, numbering requests from 1.
    pub fn new() -> (s: AttackStub)
        ensures
            s.orb_addr@ == "127.0.0.1:8500"@,
            s.next_request == 1,
    {
        AttackStub { orb_addr: text("127.0.0.1:8500"), next_request: 1 }
    }

    /// The request for an attack on `(target_row, target_col)`, numbered
    /// with the next id (ids wrap around after the largest `u64`).
    pub fn attack_request(&mut self, attacker_id: u32, target_row: usize, target_col: usize, damage: i32) -> (req: OrbRequest)
        ensures
            req == (OrbRequest::InvokeAttack { request_id: old(self).next_request, attacker_id, target_row, target_col, damage }),
            final(self).next_request == old(self).next_request.wrapping_add(1),
            final(self).orb_addr == old(self).orb_addr,
    {
        let request_id = self.next_request;
        self.next_request = self.next_request.wrapping_add(1);
        OrbRequest::InvokeAttack { request_id, attacker_id, target_row, target_col, damage }
    }
}

} // verus!
