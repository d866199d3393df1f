use vstd::prelude::*;

verus! {

/// Side of the board shared by the zone servers.
pub const BOARD_SIZE: usize = 10;

/// A rectangle of the board: rows `row_start..=row_end`, columns
/// `col_start..=col_end`.
#[derive(Clone, Copy, PartialEq, Eq, Structural)]
pub struct Zone {
    pub row_start: usize,
    pub row_end: usize,
    pub col_start: usize,
    pub col_end: usize,
}

impl Zone {
    pub open spec fn spec_contains(self, r: int, c: int) -> bool {
        self.row_start <= r <= self.row_end && self.col_start <= c <= self.col_end
    }

    /// Number of cells of a zone whose bounds are in order.
    pub open spec fn spec_cells(self) -> int {
        (self.row_end - self.row_start + 1) * (self.col_end - self.col_start + 1)
    }

    /// The zone has at least one cell and lies on the board.
    pub open spec fn on_board(self) -> bool {
        &&& self.row_start <= self.row_end < BOARD_SIZE
        &&& self.col_start <= self.col_end < BOARD_SIZE
    }

    /// Indexing the board over the rows and columns of the zone stays on the
    /// board: either the zone is empty or it lies on the board.
    pub open spec fn fits(self) -> bool {
        self.row_start <= self.row_end && self.col_start <= self.col_end ==> self.on_board()
    }

    /// Number of cells of the zone.
    pub fn cells(&self) -> (n: usize)
        requires
            self.row_start <= self.row_end,
            self.col_start <= self.col_end,
            self.row_end - self.row_start < usize::MAX,
            self.col_end - self.col_start < usize::MAX,
            self.spec_cells() <= usize::MAX,
        ensures
            n == self.spec_cells(),
    {
        let h = self.row_end - self.row_start + 1;
        let w = self.col_end - self.col_start + 1;
        assert(h * w == self.spec_cells());
        h * w
    }

    /// Whether cell `(r, c)` lies in the zone.
    pub fn contains(&self, r: usize, c: usize) -> (b: bool)
        ensures
            b == self.spec_contains(r as int, c as int),
    {
        r >= self.row_start && r <= self.row_end && c >= self.col_start && c <= self.col_end
    }
}

/// The cells of a zone, row by row.
pub open spec fn zone_cell_seq(z: Zone) -> Seq<(int, int)> {
    let w = z.col_end - z.col_start + 1;
    Seq::new(z.spec_cells() as nat, |k: int| (z.row_start + k / w, z.col_start + k % w))
}

/// A zone whose bounds are in order has as many cells as it contains: the
/// number of cells that [`Zone::contains`] admits is the product of its
/// height and its width.
pub proof fn lemma_cells_count_contained(z: Zone)
    requires
        z.row_start <= z.row_end,
        z.col_start <= z.col_end,
    ensures
        Set::new(|p: (int, int)| z.spec_contains(p.0, p.1)).finite(),
        Set::new(|p: (int, int)| z.spec_contains(p.0, p.1)).len() == z.spec_cells(),
{
    let h = z.row_end - z.row_start + 1;
    let w = z.col_end - z.col_start + 1;
    let s = zone_cell_seq(z);
    let area = Set::new(|p: (int, int)| z.spec_contains(p.0, p.1));
    assert(h * w > 0) by (nonlinear_arith)
        requires
            h > 0,
            w > 0,
    ;
    assert forall|k: int| 0 <= k < s.len() implies #[trigger] area.contains(s[k]) by {
        vstd::arithmetic::div_mod::lemma_fundamental_div_mod(k, w);
        assert(0 <= k / w < h) by (nonlinear_arith)
            requires
                0 <= k < h * w,
                w > 0,
                h > 0,
        ;
        assert(0 <= k % w < w) by (nonlinear_arith)
            requires
                w > 0,
        ;
    }
    assert forall|p: (int, int)| #[trigger] area.contains(p) implies s.contains(p) by {
        let a = p.0 - z.row_start;
        let b = p.1 - z.col_start;
        let k = a * w + b;
        vstd::arithmetic::div_mod::lemma_fundamental_div_mod_converse(k, w, a, b);
        assert(0 <= k < h * w) by (nonlinear_arith)
            requires
                0 <= a < h,
                0 <= b < w,
                k == a * w + b,
        ;
        assert(s[k] == p);
    }
    assert forall|i: int, j: int| 0 <= i < s.len() && 0 <= j < s.len() && i != j implies s[i] != s[j] by {
        vstd::arithmetic::div_mod::lemma_fundamental_div_mod(i, w);
        vstd::arithmetic::div_mod::lemma_fundamental_div_mod(j, w);
    }
    s.unique_seq_to_set();
    assert(s.to_set() =~= area);
}

/// A hero handed from one zone server to another.
#[derive(Clone, Copy)]
pub struct ClientTransfer {
    pub client_id: u32,
    pub row: usize,
    pub col: usize,
    pub life: i32,
    pub max_life: i32,
    pub potions: u32,
}

/// What the coordinator and the front end see of a hero.
pub struct ClientInfo {
    pub id: u32,
    pub row: usize,
    pub col: usize,
    pub life: i32,
    pub max_life: i32,
    pub potions: u32,
    pub action: String,
}

impl ClientInfo {
    /// A copy of this record.
    pub fn duplicate(&self) -> (r: ClientInfo)
        ensures
            r == *self,
    {
        ClientInfo {
            id: self.id,
            row: self.row,
            col: self.col,
            life: self.life,
            max_life: self.max_life,
            potions: self.potions,
            action: self.action.clone(),
        }
    }
}

/// What a zone server reports of itself to the coordinator.
pub struct ZoneSnapshot {
    pub zone: Zone,
    pub clients: Vec<ClientInfo>,
    pub events: Vec<String>,
}

/// Orders of the coordinator to a zone server.
pub enum CoordToServer {
    AssignZone { zone: Zone },
    AbsorbZone { zone: Zone, clients: Vec<ClientTransfer> },
    Ping { tick: u64 },
}

/// Messages of a zone server to the coordinator.
pub enum ServerToCoord {
    Register { server_id: u32, tcp_addr: String, ws_addr: String },
    StateUpdate { server_id: u32, snapshot: ZoneSnapshot },
    Pong { server_id: u32, tick: u64 },
    ReadyToAbsorb { server_id: u32 },
}

/// A copy of a list of strings.
pub fn copy_strings(v: &Vec<String>) -> (out: Vec<String>)
    ensures
        out@ == v@,
{
    let mut out: Vec<String> = Vec::new();
    let mut i: usize = 0;
    while i < v.len()
        invariant
            i <= v@.len(),
            out@ == v@.take(i as int),
        decreases v@.len() - i,
    {
        out.push(v[i].clone());
        assert(v@.take(i as int + 1) == v@.take(i as int).push(v@[i as int]));
        i = i + 1;
    }
    assert(v@.take(v@.len() as int) == v@);
    out
}

} // verus!
