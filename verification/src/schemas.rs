//! Wire-schema value types: grid coordinates, owned squares, per-session
//! configuration, diff records, and the server-to-client message bodies.
use vstd::prelude::*;

verus! {

/// Unique per-connection identifier, drawn at random when a player joins.
pub type PlayerID = u16;

/// RGB triple assigned at join time; used only for client rendering.
pub type Color = (u8, u8, u8);

/// An unsigned 2D grid coordinate. Valid positions have both coordinates
/// below the configured grid size.
#[derive(Clone, Copy, Hash, PartialEq, Eq, Structural, Debug)]
pub struct Position {
    pub x: u32,
    pub y: u32,
}

impl Position {
    /// Both coordinates lie inside a `size`-by-`size` grid.
    pub open spec fn in_bounds(self, size: u32) -> bool {
        self.x < size && self.y < size
    }
}

/// An owned grid cell: its owner and its growth counter.
#[derive(Clone, Copy, PartialEq, Eq, Structural, Debug)]
pub struct Square {
    pub owner: PlayerID,
    pub number: u8,
}

/// Immutable per-session configuration: the grid is `size`-by-`size`, and a
/// square's counter overflows (triggering expansion) once it exceeds
/// `max_number`.
#[derive(Clone, Copy, PartialEq, Eq, Structural, Debug)]
pub struct GameConfig {
    pub size: u32,
    pub max_number: u8,
}

impl GameConfig {
    /// Well-formed configurations. A counter mid-expansion reaches
    /// `max_number + 1`, which must still fit in a `u8`, and the grid must
    /// have at least one cell. The threshold must be at least 4: an
    /// expansion consumes a counter above the threshold and hands at most 1
    /// to each of at most 4 neighbours, so with `max_number >= 4` the total
    /// counter sum strictly falls and every cascade terminates. Below 4,
    /// chain reactions can run forever (on a 2-by-2 grid with threshold 1
    /// and every cell owned at count 1, one click never settles), so such
    /// configurations are not well-formed.
    pub open spec fn wf(self) -> bool {
        &&& 4 <= self.max_number <= 254
        &&& 1 <= self.size
    }
}

/// A per-cell diff record: `id` is the new owner, or `None` if the square
/// became unowned; `number` is meaningless when `id` is `None`.
#[derive(Clone, Copy, Debug)]
pub struct SquareChange {
    /// `None` if the square was removed.
    pub id: Option<PlayerID>,
    /// Ignored if the square has no owner.
    pub number: u8,
}

impl PartialEq for SquareChange {
    fn eq(&self, other: &SquareChange) -> (r: bool) {
        self.id == other.id && self.number == other.number
    }
}

impl Eq for SquareChange {}

impl vstd::std_specs::cmp::PartialEqSpecImpl for SquareChange {
    open spec fn obeys_eq_spec() -> bool {
        true
    }

    open spec fn eq_spec(&self, other: &SquareChange) -> bool {
        self.id == other.id && self.number == other.number
    }
}

impl From<Square> for SquareChange {
    fn from(value: Square) -> (r: SquareChange) {
        SquareChange { id: Some(value.owner), number: value.number }
    }
}

impl vstd::std_specs::convert::FromSpecImpl<Square> for SquareChange {
    open spec fn obeys_from_spec() -> bool {
        true
    }

    open spec fn from_spec(value: Square) -> SquareChange {
        SquareChange { id: Some(value.owner), number: value.number }
    }
}

impl SquareChange {
    /// The diff record for a square that lost its owner.
    pub fn create_removed() -> (r: SquareChange)
        ensures
            r == (SquareChange { id: None, number: 0 }),
    {
        SquareChange { id: None, number: 0 }
    }

    /// The diff record matching an owned square `s`.
    pub open spec fn of_square(s: Square) -> SquareChange {
        SquareChange { id: Some(s.owner), number: s.number }
    }

    /// The diff record for a removed square.
    pub open spec fn removed() -> SquareChange {
        SquareChange { id: None, number: 0 }
    }
}

/// Point-in-time copy of the whole game state, sent to a player on join.
pub struct GameSnapshot {
    pub players: Vec<(PlayerID, Color)>,
    pub squares: Vec<(Position, Square)>,
}

/// First message a freshly joined player receives: its identity, its spawn
/// square, the session configuration, and a full snapshot.
pub struct LoginDataS2CMessage {
    pub id: PlayerID,
    pub color: Color,
    pub spawn_point: Position,
    pub config: GameConfig,
    pub snapshot: GameSnapshot,
}

/// Body of the one recognised client-to-server message: a click on a cell.
#[derive(Clone, Copy, PartialEq, Eq, Structural, Debug)]
pub struct ClickC2SMessage {
    pub position: Position,
}

/// Broadcast to existing players when a new player joins.
pub struct PlayerJoinS2CMessage {
    pub player_join: (PlayerID, Color),
}

/// Broadcast when a player is removed.
pub struct PlayerLeaveS2CMessage {
    pub left_id: PlayerID,
}

/// Per-tick diff broadcast: the final state of every cell touched during the
/// tick, one entry per cell.
pub struct TickS2CMessage {
    pub changes: Vec<(Position, SquareChange)>,
}

} // verus!
