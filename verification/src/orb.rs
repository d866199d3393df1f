use std::collections::HashMap;
use vstd::prelude::*;
use vstd::std_specs::iter::IteratorSpec;
use vstd::string::*;
use crate::protocol::text;

verus! {

broadcast use vstd::std_specs::hash::group_hash_axioms;

/// Where the object standing on a cell lives: the zone server that owns it,
/// the address of that server's skeleton, the cell and its occupant.
pub struct InteropRef {
    pub zone_server_id: u32,
    pub skeleton_addr: String,
    pub row: usize,
    pub col: usize,
    pub occupant_id: Option<u32>,
}

impl InteropRef {
    /// A copy of this reference.
    pub fn duplicate(&self) -> (r: InteropRef)
        ensures
            r == *self,
    {
        InteropRef {
            zone_server_id: self.zone_server_id,
            skeleton_addr: self.skeleton_addr.clone(),
            row: self.row,
            col: self.col,
            occupant_id: self.occupant_id,
        }
    }
}

/// The zone that a server registers with the broker.
#[derive(Clone, Copy, PartialEq, Eq, Structural)]
pub struct OrbZone {
    pub row_start: usize,
    pub row_end: usize,
    pub col_start: usize,
    pub col_end: usize,
}

impl OrbZone {
    pub open spec fn spec_contains(self, r: int, c: int) -> bool {
        self.row_start <= r <= self.row_end && self.col_start <= c <= self.col_end
    }

    /// Whether cell `(r, c)` lies in the zone.
    pub fn contains(&self, r: usize, c: usize) -> (b: bool)
        ensures
            b == self.spec_contains(r as int, c as int),
    {
        r >= self.row_start && r <= self.row_end && c >= self.col_start && c <= self.col_end
    }
}

/// One cell as a zone server publishes it.
#[derive(Clone, Copy)]
pub struct CellReg {
    pub row: usize,
    pub col: usize,
    pub occupant_id: Option<u32>,
}

/// Requests of stubs and zone servers to the broker.
pub enum OrbRequest {
    RegisterZone { server_id: u32, skeleton_addr: String, zone: OrbZone },
    UpdateCells { server_id: u32, cells: Vec<CellReg> },
    InvokeAttack { request_id: u64, attacker_id: u32, target_row: usize, target_col: usize, damage: i32 },
    LookupIOR { row: usize, col: usize },
}

/// Replies of the broker.
pub enum OrbReply {
    AttackResult { request_id: u64, target_id: Option<u32>, damage_applied: i32, target_died: bool, routing: String },
    TargetNotFound { request_id: u64, reason: String },
    IORFound { ior: InteropRef },
    IORNotFound { row: usize, col: usize },
    ZoneRegistered { server_id: u32 },
    CellsUpdated { server_id: u32, count: usize },
    Error { request_id: u64, msg: String },
}

/// Requests of the broker to the skeleton of a zone server.
pub enum SkelRequest {
    PerformAttack { request_id: u64, attacker_id: u32, target_row: usize, target_col: usize, damage: i32 },
}

/// Replies of a skeleton to the broker.
pub enum SkelReply {
    AttackExecuted { request_id: u64, target_id: u32, damage_applied: i32, target_died: bool },
    TargetNotFound { request_id: u64 },
    Error { request_id: u64, msg: String },
}

/// Events that the broker reports to the coordinator.
pub enum OrbToCoord {
    AttackEvent { attacker: u32, target: u32, damage: i32, target_row: usize, target_col: usize, died: bool, routing: String },
}

/// Decimal digits of `n`, most significant first, as `format!("{}", n)`
/// writes an unsigned integer.
pub open spec fn decimal(n: nat) -> Seq<char>
    decreases n,
{
    if n < 10 {
        seq![digit_char(n)]
    } else {
        decimal(n / 10) + seq![digit_char(n % 10)]
    }
}

pub open spec fn digit_char(d: nat) -> char {
    if d == 0 { '0' } else if d == 1 { '1' } else if d == 2 { '2' } else if d == 3 { '3' } else if d == 4 { '4' }
    else if d == 5 { '5' } else if d == 6 { '6' } else if d == 7 { '7' } else if d == 8 { '8' } else { '9' }
}

/// `prefix`, then `(row,col)` in decimal, then `suffix`.
pub open spec fn cell_text(prefix: Seq<char>, row: nat, col: nat, suffix: Seq<char>) -> Seq<char> {
    prefix + seq!['('] + decimal(row) + seq![','] + decimal(col) + seq![')'] + suffix
}

/// A signed integer in decimal, with a minus sign before a negative one, as
/// `format!("{}", i)` writes it.
pub open spec fn signed_decimal(i: int) -> Seq<char> {
    if i < 0 {
        seq!['-'] + decimal((-i) as nat)
    } else {
        decimal(i as nat)
    }
}

/// The one-character text of digit `d`.
fn digit_str(d: u64) -> (s: &'static str)
    requires
        d < 10,
    ensures
        s@ == seq![digit_char(d as nat)],
{
    proof {
        reveal_strlit("0");
        reveal_strlit("1");
        reveal_strlit("2");
        reveal_strlit("3");
        reveal_strlit("4");
        reveal_strlit("5");
        reveal_strlit("6");
        reveal_strlit("7");
        reveal_strlit("8");
        reveal_strlit("9");
    }
    if d == 0 { "0" } else if d == 1 { "1" } else if d == 2 { "2" } else if d == 3 { "3" } else if d == 4 { "4" }
    else if d == 5 { "5" } else if d == 6 { "6" } else if d == 7 { "7" } else if d == 8 { "8" } else { "9" }
}

/// `n` written in decimal.
pub fn decimal_text(n: u64) -> (s: String)
    ensures
        s@ == decimal(n as nat),
    decreases n,
{
    if n < 10 {
        text(digit_str(n))
    } else {
        let mut s = decimal_text(n / 10);
        s.append(digit_str(n % 10));
        s
    }
}

/// `i` written in decimal, with a minus sign when it is negative.
pub fn signed_text(i: i64) -> (s: String)
    ensures
        s@ == signed_decimal(i as int),
{
    if i < 0 {
        let magnitude: u64 = (0 - (i as i128)) as u64;
        let mut s = text("-");
        proof {
            reveal_strlit("-");
        }
        s.append(decimal_text(magnitude).as_str());
        s
    } else {
        decimal_text(i as u64)
    }
}

/// `prefix`, then `(row,col)` in decimal, then `suffix`.
pub(crate) fn cell_message(prefix: &str, row: usize, col: usize, suffix: &str) -> (s: String)
    ensures
        s@ == cell_text(prefix@, row as nat, col as nat, suffix@),
{
    let mut s = text(prefix);
    s.append("(");
    s.append(decimal_text(row as u64).as_str());
    s.append(",");
    s.append(decimal_text(col as u64).as_str());
    s.append(")");
    s.append(suffix);
    proof {
        reveal_strlit("(");
        reveal_strlit(",");
        reveal_strlit(")");
    }
    s
}

/// The key under which the broker files cell `(row, col)`.
pub open spec fn cell_key(row: int, col: int) -> int {
    row * 10 + col
}

/// The reference that a server publishes for one of its cells.
pub open spec fn published(server_id: u32, addr: String, cell: CellReg) -> InteropRef {
    InteropRef { zone_server_id: server_id, skeleton_addr: addr, row: cell.row, col: cell.col, occupant_id: cell.occupant_id }
}

/// The cell table after filing the references of `cells` in order; a later
/// cell with the same key replaces an earlier one.
pub open spec fn filed(m: Map<usize, InteropRef>, server_id: u32, addr: String, cells: Seq<CellReg>) -> Map<usize, InteropRef>
    decreases cells.len(),
{
    if cells.len() == 0 {
        m
    } else {
        let last = cells.last();
        filed(m, server_id, addr, cells.drop_last()).insert(
            cell_key(last.row as int, last.col as int) as usize,
            published(server_id, addr, last),
        )
    }
}

/// A reference that server `server_id` no longer vouches for: it belongs to
/// that server, lies in its zone and names no occupant.
pub open spec fn stale(ior: InteropRef, server_id: u32, zone: OrbZone) -> bool {
    &&& ior.zone_server_id == server_id
    &&& zone.spec_contains(ior.row as int, ior.col as int)
    &&& ior.occupant_id is None
}

/// The cell table without the stale references of `server_id`.
pub open spec fn pruned(m: Map<usize, InteropRef>, server_id: u32, zone: OrbZone) -> Map<usize, InteropRef> {
    Map::new(|k: usize| m.contains_key(k) && !stale(m[k], server_id, zone), |k: usize| m[k])
}

/// Every cell of `cells` has a key that fits in a `usize`.
pub open spec fn keys_fit(cells: Seq<CellReg>) -> bool {
    forall|i: int| 0 <= i < cells.len() ==> cell_key((#[trigger] cells[i]).row as int, cells[i].col as int) <= usize::MAX
}

/// The key of a published cell.
pub open spec fn reg_key(c: CellReg) -> int {
    cell_key(c.row as int, c.col as int)
}

/// `i` is the last position of a cell with key `k`.
pub open spec fn last_with_key(cells: Seq<CellReg>, k: int, i: int) -> bool {
    &&& 0 <= i < cells.len()
    &&& reg_key(cells[i]) == k
    &&& forall|j: int| i < j < cells.len() ==> reg_key(#[trigger] cells[j]) != k
}

/// Filing a list of cells leaves under the key of its last cell with that
/// key the reference of that cell, and leaves a key that no cell has as it
/// was.
proof fn lemma_filed_at(m: Map<usize, InteropRef>, server_id: u32, addr: String, cells: Seq<CellReg>, k: int, i: int)
    requires
        keys_fit(cells),
        0 <= k <= usize::MAX,
        i == -1 ==> forall|j: int| 0 <= j < cells.len() ==> reg_key(#[trigger] cells[j]) != k,
        i != -1 ==> last_with_key(cells, k, i),
    ensures
        i != -1 ==> filed(m, server_id, addr, cells).contains_key(k as usize)
            && filed(m, server_id, addr, cells)[k as usize] == published(server_id, addr, cells[i]),
        i == -1 ==> filed(m, server_id, addr, cells).contains_key(k as usize) == m.contains_key(k as usize),
        i == -1 && m.contains_key(k as usize) ==> filed(m, server_id, addr, cells)[k as usize] == m[k as usize],
    decreases cells.len(),
{
    if cells.len() > 0 {
        let init = cells.drop_last();
        let n = cells.len() - 1;
        assert(keys_fit(init)) by {
            assert forall|j: int| 0 <= j < init.len() implies cell_key((#[trigger] init[j]).row as int, init[j].col as int) <= usize::MAX by {
                assert(init[j] == cells[j]);
            }
        }
        assert(reg_key(cells[n]) <= usize::MAX);
        if i == n {
        } else if i == -1 {
            assert forall|j: int| 0 <= j < init.len() implies reg_key(#[trigger] init[j]) != k by {
                assert(init[j] == cells[j]);
            }
            lemma_filed_at(m, server_id, addr, init, k, -1);
            assert(reg_key(cells[n]) != k);
        } else {
            assert(reg_key(cells[n]) != k);
            assert forall|j: int| i < j < init.len() implies reg_key(#[trigger] init[j]) != k by {
                assert(init[j] == cells[j]);
            }
            assert(init[i] == cells[i]);
            lemma_filed_at(m, server_id, addr, init, k, i);
        }
    }
}

/// What a lookup gives back of a publication: after server `server_id`
/// published the cells `cells`, the key of the last of them with a given
/// key holds that cell's reference when the cell has an occupant, and
/// holds nothing when the cell is empty and lies in the server's zone.
pub proof fn lemma_published_cell_found(
    m: Map<usize, InteropRef>,
    server_id: u32,
    addr: String,
    zone: OrbZone,
    cells: Seq<CellReg>,
    i: int,
)
    requires
        keys_fit(cells),
        last_with_key(cells, reg_key(cells[i]), i),
    ensures
        ({
            let k = reg_key(cells[i]) as usize;
            let after = pruned(filed(m, server_id, addr, cells), server_id, zone);
            &&& cells[i].occupant_id is Some ==> after.contains_key(k) && after[k] == published(server_id, addr, cells[i])
            &&& cells[i].occupant_id is None && zone.spec_contains(cells[i].row as int, cells[i].col as int)
                ==> !after.contains_key(k)
        }),
{
    assert(reg_key(cells[i]) <= usize::MAX);
    lemma_filed_at(m, server_id, addr, cells, reg_key(cells[i]), i);
}

/// Publishing cells leaves the reference under any key that none of them
/// has, unless it is a stale one of the publishing server.
pub proof fn lemma_other_keys_kept(
    m: Map<usize, InteropRef>,
    server_id: u32,
    addr: String,
    zone: OrbZone,
    cells: Seq<CellReg>,
    k: usize,
)
    requires
        keys_fit(cells),
        forall|j: int| 0 <= j < cells.len() ==> reg_key(#[trigger] cells[j]) != k,
        m.contains_key(k),
        !stale(m[k], server_id, zone),
    ensures
        pruned(filed(m, server_id, addr, cells), server_id, zone).contains_key(k),
        pruned(filed(m, server_id, addr, cells), server_id, zone)[k] == m[k],
{
    lemma_filed_at(m, server_id, addr, cells, k as int, -1);
}

/// Columns of the board whose cells the broker files.
pub const BOARD_COLS: usize = 10;

/// Distinct cells of the board have distinct keys.
pub proof fn lemma_cell_keys_distinct(r1: int, c1: int, r2: int, c2: int)
    requires
        0 <= r1,
        0 <= r2,
        0 <= c1 < BOARD_COLS,
        0 <= c2 < BOARD_COLS,
        cell_key(r1, c1) == cell_key(r2, c2),
    ensures
        r1 == r2,
        c1 == c2,
{
    if r1 < r2 {
        assert(r1 * 10 + 10 <= r2 * 10) by (nonlinear_arith)
            requires r1 < r2;
    } else if r2 < r1 {
        assert(r2 * 10 + 10 <= r1 * 10) by (nonlinear_arith)
            requires r2 < r1;
    }
}

/// Every reference of the table is filed under the key of its own cell, a
/// cell of the board.
pub open spec fn filed_by_cell(m: Map<usize, InteropRef>) -> bool {
    forall|k: usize| #[trigger] m.contains_key(k) ==> m[k].col < BOARD_COLS && k == cell_key(m[k].row as int, m[k].col as int)
}

/// A lookup of a cell of the board only finds a reference published for
/// that very cell.
pub proof fn lemma_lookup_finds_own_cell(m: Map<usize, InteropRef>, row: usize, col: usize)
    requires
        filed_by_cell(m),
        col < BOARD_COLS,
        cell_key(row as int, col as int) <= usize::MAX,
    ensures
        m.contains_key(cell_key(row as int, col as int) as usize) ==> {
            let ior = m[cell_key(row as int, col as int) as usize];
            ior.row == row && ior.col == col
        },
{
    let k = cell_key(row as int, col as int) as usize;
    if m.contains_key(k) {
        lemma_cell_keys_distinct(row as int, col as int, m[k].row as int, m[k].col as int);
    }
}

/// Publishing cells of the board keeps every reference filed under the key
/// of its own cell.
pub proof fn lemma_publishing_keeps_filed_by_cell(
    m: Map<usize, InteropRef>,
    server_id: u32,
    addr: String,
    zone: OrbZone,
    cells: Seq<CellReg>,
)
    requires
        filed_by_cell(m),
        keys_fit(cells),
        forall|i: int| 0 <= i < cells.len() ==> (#[trigger] cells[i]).col < BOARD_COLS,
    ensures
        filed_by_cell(filed(m, server_id, addr, cells)),
        filed_by_cell(pruned(filed(m, server_id, addr, cells), server_id, zone)),
    decreases cells.len(),
{
    if cells.len() > 0 {
        let init = cells.drop_last();
        assert(keys_fit(init)) by {
            assert forall|j: int| 0 <= j < init.len() implies cell_key((#[trigger] init[j]).row as int, init[j].col as int) <= usize::MAX by {
                assert(init[j] == cells[j]);
            }
        }
        assert forall|j: int| 0 <= j < init.len() implies (#[trigger] init[j]).col < BOARD_COLS by {
            assert(init[j] == cells[j]);
        }
        lemma_publishing_keeps_filed_by_cell(m, server_id, addr, zone, init);
        assert(cells.last().col < BOARD_COLS);
        assert(reg_key(cells[cells.len() - 1]) <= usize::MAX);
    }
    let f = filed(m, server_id, addr, cells);
    let p = pruned(f, server_id, zone);
    assert forall|k: usize| #[trigger] p.contains_key(k) implies p[k].col < BOARD_COLS && k == cell_key(p[k].row as int, p[k].col as int) by {
        assert(f.contains_key(k));
    }
}

/// The broker's table of cells and of registered servers.
pub struct Registry {
    cells: HashMap<usize, InteropRef>,
    servers: HashMap<u32, (String, OrbZone)>,
}

/// The mathematical content of a [`Registry`].
pub struct RegistryView {
    pub cells: Map<usize, InteropRef>,
    pub servers: Map<u32, (String, OrbZone)>,
}

impl View for Registry {
    type V = RegistryView;

    closed spec fn view(&self) -> RegistryView {
        RegistryView { cells: self.cells@, servers: self.servers@ }
    }
}

impl Registry {
    /// An empty registry.
    pub fn new() -> (r: Registry)
        ensures
            r@.cells.is_empty(),
            r@.servers.is_empty(),
    {
        Registry { cells: HashMap::new(), servers: HashMap::new() }
    }

    /// Records the skeleton address and the zone of server `server_id`.
    pub fn register_zone(&mut self, server_id: u32, addr: String, zone: OrbZone)
        ensures
            final(self)@.servers == old(self)@.servers.insert(server_id, (addr, zone)),
            final(self)@.cells == old(self)@.cells,
    {
        self.servers.insert(server_id, (addr, zone));
    }

    /// Files the cells that server `server_id` publishes, then forgets the
    /// references of that server inside its zone that name no occupant. A
    /// server that never registered is ignored.
    pub fn update_cells(&mut self, server_id: u32, cells: Vec<CellReg>)
        requires
            keys_fit(cells@),
        ensures
            final(self)@.servers == old(self)@.servers,
            final(self)@.cells == if old(self)@.servers.contains_key(server_id) {
                let (addr, zone) = old(self)@.servers[server_id];
                pruned(filed(old(self)@.cells, server_id, addr, cells@), server_id, zone)
            } else {
                old(self)@.cells
            },
    {
        let (addr, zone) = match self.servers.get(&server_id) {
            Some(entry) => (entry.0.clone(), entry.1),
            None => return,
        };
        let ghost start = self.cells@;
        let ghost servers = self.servers@;
        let mut i: usize = 0;
        while i < cells.len()
            invariant
                keys_fit(cells@),
                self.servers@ == servers,
                i <= cells@.len(),
                self.cells@ == filed(start, server_id, addr, cells@.take(i as int)),
            decreases cells@.len() - i,
        {
            let cell = cells[i];
            let key = cell.row * 10 + cell.col;
            self.cells.insert(
                key,
                InteropRef { zone_server_id: server_id, skeleton_addr: addr.clone(), row: cell.row, col: cell.col, occupant_id: cell.occupant_id },
            );
            assert(cells@.take(i as int + 1).drop_last() == cells@.take(i as int));
            i = i + 1;
        }
        assert(cells@.take(cells@.len() as int) == cells@);
        let ghost after = self.cells@;
        let mut doomed: Vec<usize> = Vec::new();
        let ghost seq = vstd::std_specs::hash::spec_hash_map_iter(&self.cells).remaining();
        for (k, ior) in it: self.cells.iter()
            invariant
                it.seq() == seq,
                self.cells@ == after,
                self.servers@ == servers,
                forall|j: int| 0 <= j < doomed@.len() ==> after.contains_key(#[trigger] doomed@[j]) && stale(after[doomed@[j]], server_id, zone),
                forall|j: int| 0 <= j < it.index() && stale(*seq[j].1, server_id, zone) ==> doomed@.contains(*(#[trigger] seq[j]).0),
        {
            let ghost before = doomed@;
            assert(k == seq[it.index() as int].0 && ior == seq[it.index() as int].1);
            if ior.zone_server_id == server_id && zone.contains(ior.row, ior.col) && ior.occupant_id.is_none() {
                doomed.push(*k);
            }
            proof {
                assert forall|j: int| 0 <= j <= it.index() && stale(*seq[j].1, server_id, zone) implies doomed@.contains(*(#[trigger] seq[j]).0) by {
                    if j < it.index() {
                        let x = choose|x: int| 0 <= x < before.len() && before[x] == *seq[j].0;
                        assert(doomed@[x] == before[x]);
                    } else {
                        assert(doomed@[doomed@.len() - 1] == *k);
                    }
                }
            }
        }
        let mut j: usize = 0;
        while j < doomed.len()
            invariant
                j <= doomed@.len(),
                self.servers@ == servers,
                forall|x: int| 0 <= x < doomed@.len() ==> after.contains_key(#[trigger] doomed@[x]) && stale(after[doomed@[x]], server_id, zone),
                forall|k: usize| #[trigger] after.contains_key(k) && stale(after[k], server_id, zone) ==> doomed@.contains(k),
                self.cells@ == after.remove_keys(doomed@.take(j as int).to_set()),
            decreases doomed@.len() - j,
        {
            let k = doomed[j];
            self.cells.remove(&k);
            assert(doomed@.take(j as int + 1).to_set() == doomed@.take(j as int).to_set().insert(k)) by {
                assert(doomed@.take(j as int + 1) == doomed@.take(j as int).push(k));
                doomed@.take(j as int).lemma_push_to_set_commute(k);
            }
            assert(self.cells@ =~= after.remove_keys(doomed@.take(j as int + 1).to_set()));
            j = j + 1;
        }
        assert(doomed@.take(doomed@.len() as int) == doomed@);
        assert(self.cells@ =~= pruned(after, server_id, zone)) by {
            assert forall|k: usize| self.cells@.contains_key(k) <==> pruned(after, server_id, zone).contains_key(k) by {
                if after.contains_key(k) && stale(after[k], server_id, zone) {
                    assert(doomed@.contains(k));
                    assert(doomed@.to_set().contains(k));
                }
                if doomed@.to_set().contains(k) {
                    let x = choose|x: int| 0 <= x < doomed@.len() && doomed@[x] == k;
                    assert(after.contains_key(doomed@[x]));
                }
            }
        }
    }

    /// The reference filed under the key of `(row, col)`.
    pub fn lookup(&self, row: usize, col: usize) -> (r: Option<InteropRef>)
        requires
            cell_key(row as int, col as int) <= usize::MAX,
        ensures
            ({
                let k = cell_key(row as int, col as int) as usize;
                match r {
                    Some(ior) => self@.cells.contains_key(k) && ior == self@.cells[k],
                    None => !self@.cells.contains_key(k),
                }
            }),
    {
        let key = row * 10 + col;
        match self.cells.get(&key) {
            Some(ior) => Some(ior.duplicate()),
            None => None,
        }
    }

    /// What the broker does with request `req`: answer it, or (for an
    /// attack on an occupied cell) hand it to the skeleton of the owner.
    pub fn handle_request(&mut self, req: OrbRequest) -> (step: BrokerStep)
        requires
            request_fits(req),
        ensures
            broker_post(old(self)@, final(self)@, req, step),
    {
        match req {
            OrbRequest::RegisterZone { server_id, skeleton_addr, zone } => {
                self.register_zone(server_id, skeleton_addr, zone);
                BrokerStep::Reply(OrbReply::ZoneRegistered { server_id })
            },
            OrbRequest::UpdateCells { server_id, cells } => {
                let count = cells.len();
                self.update_cells(server_id, cells);
                BrokerStep::Reply(OrbReply::CellsUpdated { server_id, count })
            },
            OrbRequest::InvokeAttack { request_id, attacker_id, target_row, target_col, damage } => {
                match self.lookup(target_row, target_col) {
                    Some(ior) => {
                        if ior.occupant_id.is_some() {
                            return BrokerStep::Dispatch { request_id, attacker_id, target_row, target_col, damage };
                        }
                    },
                    None => {},
                }
                BrokerStep::Reply(OrbReply::TargetNotFound {
                    request_id,
                    reason: cell_message("", target_row, target_col, " sin ocupante"),
                })
            },
            OrbRequest::LookupIOR { row, col } => {
                match self.lookup(row, col) {
                    Some(ior) => BrokerStep::Reply(OrbReply::IORFound { ior }),
                    None => BrokerStep::Reply(OrbReply::IORNotFound { row, col }),
                }
            },
        }
    }

    /// The skeleton to call for an attack on `(target_row, target_col)` and
    /// the request to send it, or the answer when nobody stands there.
    pub fn plan_dispatch(&self, request_id: u64, attacker_id: u32, target_row: usize, target_col: usize, damage: i32) -> (plan: Result<(String, SkelRequest), OrbReply>)
        requires
            cell_key(target_row as int, target_col as int) <= usize::MAX,
        ensures
            ({
                let k = cell_key(target_row as int, target_col as int) as usize;
                if self@.cells.contains_key(k) && self@.cells[k].occupant_id is Some {
                    plan == Ok::<(String, SkelRequest), OrbReply>((
                        self@.cells[k].skeleton_addr,
                        SkelRequest::PerformAttack { request_id, attacker_id, target_row, target_col, damage },
                    ))
                } else {
                    plan matches Err(OrbReply::TargetNotFound { request_id: rid, reason }) && rid == request_id
                        && reason@ == cell_text("Celda "@, target_row as nat, target_col as nat, " vacía"@)
                }
            }),
    {
        match self.lookup(target_row, target_col) {
            Some(ior) => {
                if ior.occupant_id.is_some() {
                    return Ok((ior.skeleton_addr, SkelRequest::PerformAttack { request_id, attacker_id, target_row, target_col, damage }));
                }
            },
            None => {},
        }
        Err(OrbReply::TargetNotFound { request_id, reason: cell_message("Celda ", target_row, target_col, " vacía") })
    }
}

/// What the broker does next with a request.
pub enum BrokerStep {
    /// Send this reply.
    Reply(OrbReply),
    /// Forward the attack to the skeleton of the zone that owns the cell.
    Dispatch { request_id: u64, attacker_id: u32, target_row: usize, target_col: usize, damage: i32 },
}

/// The request names only cell keys that fit in a `usize`.
pub open spec fn request_fits(req: OrbRequest) -> bool {
    match req {
        OrbRequest::UpdateCells { cells, .. } => keys_fit(cells@),
        OrbRequest::InvokeAttack { target_row, target_col, .. } => cell_key(target_row as int, target_col as int) <= usize::MAX,
        OrbRequest::LookupIOR { row, col } => cell_key(row as int, col as int) <= usize::MAX,
        _ => true,
    }
}

/// The registry and the step after the broker handled `req`.
pub open spec fn broker_post(old: RegistryView, new: RegistryView, req: OrbRequest, step: BrokerStep) -> bool {
    match req {
        OrbRequest::RegisterZone { server_id, skeleton_addr, zone } => {
            &&& new.servers == old.servers.insert(server_id, (skeleton_addr, zone))
            &&& new.cells == old.cells
            &&& step == BrokerStep::Reply(OrbReply::ZoneRegistered { server_id })
        },
        OrbRequest::UpdateCells { server_id, cells } => {
            &&& new.servers == old.servers
            &&& new.cells == if old.servers.contains_key(server_id) {
                let (addr, zone) = old.servers[server_id];
                pruned(filed(old.cells, server_id, addr, cells@), server_id, zone)
            } else {
                old.cells
            }
            &&& step == BrokerStep::Reply(OrbReply::CellsUpdated { server_id, count: cells@.len() as usize })
        },
        OrbRequest::InvokeAttack { request_id, attacker_id, target_row, target_col, damage } => {
            let k = cell_key(target_row as int, target_col as int) as usize;
            &&& new == old
            &&& if old.cells.contains_key(k) && old.cells[k].occupant_id is Some {
                step == BrokerStep::Dispatch { request_id, attacker_id, target_row, target_col, damage }
            } else {
                step matches BrokerStep::Reply(OrbReply::TargetNotFound { request_id: rid, reason }) && rid == request_id
                    && reason@ == cell_text(""@, target_row as nat, target_col as nat, " sin ocupante"@)
            }
        },
        OrbRequest::LookupIOR { row, col } => {
            let k = cell_key(row as int, col as int) as usize;
            &&& new == old
            &&& step == if old.cells.contains_key(k) {
                BrokerStep::Reply(OrbReply::IORFound { ior: old.cells[k] })
            } else {
                BrokerStep::Reply(OrbReply::IORNotFound { row, col })
            }
        },
    }
}

/// The broker's answer to a stub once the skeleton of the owner answered
/// (`Ok`) or could not be reached (`Err` with the reason), and the event to
/// report to the coordinator when the attack went through.
pub fn dispatch_outcome(request_id: u64, attacker_id: u32, target_row: usize, target_col: usize, answer: Result<SkelReply, String>) -> (out: (OrbReply, Option<OrbToCoord>))
    ensures
        match answer {
            Ok(SkelReply::AttackExecuted { request_id: rid, target_id, damage_applied, target_died }) => {
                &&& out.0 matches OrbReply::AttackResult { request_id: r, target_id: t, damage_applied: d, target_died: died, routing }
                    && r == rid && t == Some(target_id) && d == damage_applied && died == target_died && routing@ == "cross_zone"@
                &&& out.1 matches Some(OrbToCoord::AttackEvent { attacker, target, damage, target_row: tr, target_col: tc, died, routing })
                    && attacker == attacker_id && target == target_id && damage == damage_applied && tr == target_row
                    && tc == target_col && died == target_died && routing@ == "cross_zone"@
            },
            Ok(SkelReply::TargetNotFound { request_id: rid }) => {
                &&& out.0 matches OrbReply::TargetNotFound { request_id: r, reason } && r == rid && reason@ == "Skeleton: celda vacía"@
                &&& out.1 is None
            },
            Ok(SkelReply::Error { request_id: rid, msg }) => out == (OrbReply::Error { request_id: rid, msg }, None::<OrbToCoord>),
            Err(msg) => out == (OrbReply::Error { request_id, msg }, None::<OrbToCoord>),
        },
{
    match answer {
        Ok(SkelReply::AttackExecuted { request_id: rid, target_id, damage_applied, target_died }) => {
            let event = OrbToCoord::AttackEvent {
                attacker: attacker_id,
                target: target_id,
                damage: damage_applied,
                target_row,
                target_col,
                died: target_died,
                routing: text("cross_zone"),
            };
            let reply = OrbReply::AttackResult {
                request_id: rid,
                target_id: Some(target_id),
                damage_applied,
                target_died,
                routing: text("cross_zone"),
            };
            (reply, Some(event))
        },
        Ok(SkelReply::TargetNotFound { request_id: rid }) => {
            (OrbReply::TargetNotFound { request_id: rid, reason: text("Skeleton: celda vacía") }, None)
        },
        Ok(SkelReply::Error { request_id: rid, msg }) => (OrbReply::Error { request_id: rid, msg }, None),
        Err(msg) => (OrbReply::Error { request_id, msg }, None),
    }
}

} // verus!
