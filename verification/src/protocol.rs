use vstd::prelude::*;
use vstd::string::*;

verus! {

/// What a hero sees of one neighbouring cell: the direction it lies in
/// (`"N"`, `"S"`, `"E"` or `"W"`), whether it is on the board, whether
/// something stands there, and who.
pub struct CellState {
    pub direction: String,
    pub in_bounds: bool,
    pub occupied: bool,
    pub client_id: Option<u32>,
}

/// Packets that a hero sends to the server of its zone.
#[derive(Clone, Copy, PartialEq, Eq, Structural)]
pub enum ClientPacket {
    QueryNeighbors { client_id: u32 },
    Move { client_id: u32, row: usize, col: usize },
    Attack { client_id: u32, target_row: usize, target_col: usize, damage: i32 },
    UsePotion { client_id: u32 },
    Dead { client_id: u32 },
}

/// Packets that a server sends to a hero.
pub enum ServerPacket {
    NeighborState { north: CellState, south: CellState, east: CellState, west: CellState },
    MoveOk { row: usize, col: usize },
    MoveDenied { reason: String },
    TakeDamage { damage: i32, from_id: u32 },
    YouDied,
    Welcome { client_id: u32, row: usize, col: usize },
    Error { msg: String },
    Redirect { tcp_addr: String, row: usize, col: usize },
}

/// The four directions in the order in which a server reports them.
pub open spec fn direction_label(i: int) -> Seq<char> {
    if i == 0 {
        "N"@
    } else if i == 1 {
        "S"@
    } else if i == 2 {
        "E"@
    } else {
        "W"@
    }
}

/// Row offset of direction `i` (north, south, east, west).
pub open spec fn direction_dr(i: int) -> int {
    if i == 0 {
        -1
    } else if i == 1 {
        1
    } else {
        0
    }
}

/// Column offset of direction `i` (north, south, east, west).
pub open spec fn direction_dc(i: int) -> int {
    if i == 2 {
        1
    } else if i == 3 {
        -1
    } else {
        0
    }
}

/// A `String` that holds the given text.
pub(crate) fn text(s: &str) -> (r: String)
    ensures
        r@ == s@,
{
    String::from_str(s)
}

} // verus!
