//! The authoritative game-state actor: the single owner of the grid, the
//! player registry and the pending-click queue. It consumes one command at a
//! time and answers with the side effects (messages to send or broadcast)
//! that its caller must perform; all delivery and scheduling stays outside.
use vstd::prelude::*;

use crate::engine;
use crate::idmap::IdMap;
use crate::posmap::PosMap;
use crate::schemas::{
    Color, GameConfig, GameSnapshot, LoginDataS2CMessage, PlayerID, PlayerJoinS2CMessage,
    PlayerLeaveS2CMessage, Position, Square, SquareChange, TickS2CMessage,
};

verus! {

/// A command drained from the actor's queue. Clicks are buffered and applied
/// at the next tick; joins and removals take effect immediately.
pub enum ServerCommand {
    PlayerClick(PlayerID, Position),
    Tick,
    Stop,
    AddPlayer,
    RemovePlayer(PlayerID),
}

/// A message from the server to one client.
pub enum OutboundMessage {
    Login(LoginDataS2CMessage),
    Join(PlayerJoinS2CMessage),
    Leave(PlayerLeaveS2CMessage),
    Tick(TickS2CMessage),
}

/// One side effect the actor asks its caller to perform after a command.
pub enum Action {
    /// Deliver the message to this player's session queue.
    Send(PlayerID, OutboundMessage),
    /// Deliver the message to every registered player's session queue,
    /// concurrently; ids whose queue is closed are fed back as
    /// `ServerCommand::RemovePlayer`.
    Broadcast(OutboundMessage),
    /// Tell this player's session to shut down.
    Close(PlayerID),
}

/// Whether the actor's processing loop should continue or stop.
pub enum Flow {
    Continue,
    Break,
}

/// The aggregate game state.
pub struct GameState {
    /// Registry of connected players and their rendering colours.
    pub players: IdMap<Color>,
    /// The sparse grid: a key is present exactly while the cell is owned.
    pub squares: PosMap<Square>,
    /// Immutable per-session configuration.
    pub config: GameConfig,
    /// Tick rate, in ticks per second, for the caller's scheduler.
    pub tps: u8,
    /// Clicks received since the last tick, in arrival order.
    pub click_queue: Vec<(PlayerID, Position)>,
    /// Tick-scoped diff accumulator: the final state of every cell touched
    /// since the last drained diff (last write wins per cell).
    pub square_changes: PosMap<SquareChange>,
    /// The grid as of the last drained diff: cells without an accumulated
    /// diff record still hold exactly this state.
    pub base: Ghost<Map<Position, Square>>,
}

impl GameState {
    /// The actor's invariant: a well-formed configuration, a well-formed
    /// grid, and a diff accumulator that faithfully records every mutation
    /// since the last drain.
    pub open spec fn wf(self) -> bool {
        &&& self.config.wf()
        &&& self.players.wf()
        &&& self.squares.wf()
        &&& self.square_changes.wf()
        &&& engine::squares_wf(self.squares@, self.config)
        &&& engine::changes_track(self.squares@, self.square_changes@)
        &&& forall|p: Position|
            !(#[trigger] self.square_changes@.contains_key(p)) ==> engine::same_square(
                self.squares@,
                self.base@,
                p,
            )
    }

    /// Everything except the diff bookkeeping is unchanged between `a` and
    /// `b`.
    pub open spec fn same_core(a: GameState, b: GameState) -> bool {
        &&& b.players@ == a.players@
        &&& b.squares@ == a.squares@
        &&& b.square_changes@ == a.square_changes@
        &&& b.click_queue@ == a.click_queue@
        &&& b.config == a.config
        &&& b.tps == a.tps
        &&& b.base == a.base
    }

    /// Fresh state with the given configuration: no players, an empty grid,
    /// nothing pending.
    pub fn new_with_config(config: GameConfig) -> (r: GameState)
        ensures
            config.wf() ==> r.wf(),
            r.players@ == Map::<PlayerID, Color>::empty(),
            r.squares@ == Map::<Position, Square>::empty(),
            r.square_changes@ == Map::<Position, SquareChange>::empty(),
            r.click_queue@ == Seq::<(PlayerID, Position)>::empty(),
            r.base@ == Map::<Position, Square>::empty(),
            r.config == config,
            r.tps == 60,
    {
        let r = GameState {
            players: IdMap::empty(),
            squares: PosMap::empty(),
            config,
            tps: 60,
            click_queue: Vec::with_capacity(64),
            square_changes: PosMap::empty(),
            base: Ghost(Map::empty()),
        };
        proof {
            assert(r.click_queue@ =~= Seq::<(PlayerID, Position)>::empty());
        }
        r
    }

    /// Fresh state with the default configuration: a 20-by-20 grid and an
    /// overflow threshold of 4, at 60 ticks per second.
    pub fn new() -> (r: GameState)
        ensures
            r.wf(),
            r.players@ == Map::<PlayerID, Color>::empty(),
            r.squares@ == Map::<Position, Square>::empty(),
            r.square_changes@ == Map::<Position, SquareChange>::empty(),
            r.click_queue@ == Seq::<(PlayerID, Position)>::empty(),
            r.base@ == Map::<Position, Square>::empty(),
            r.config == (GameConfig { size: 20, max_number: 4 }),
            r.tps == 60,
    {
        Self::new_with_config(GameConfig { size: 20, max_number: 4 })
    }

    /// Drains the pending clicks through the engine, in arrival order
    /// (first in, first applied, no per-player reordering): the final grid
    /// and accumulator are the in-order fold of the engine's single click
    /// over the old queue.
    #[verifier::loop_isolation(false)]
    pub fn apply_clicks(&mut self)
        requires
            old(self).wf(),
        ensures
            final(self).wf(),
            engine::clicks_applied(
                old(self).config,
                old(self).click_queue@,
                old(self).squares@,
                old(self).square_changes@,
                final(self).squares@,
                final(self).square_changes@,
            ),
            final(self).click_queue@.len() == 0,
            final(self).players@ == old(self).players@,
            final(self).config == old(self).config,
            final(self).tps == old(self).tps,
            final(self).base == old(self).base,
            forall|p: Position| #[trigger]
                old(self).square_changes@.contains_key(p) ==> final(self).square_changes@.contains_key(p),
            forall|p: Position|
                !(#[trigger] final(self).square_changes@.contains_key(p)) ==> !old(self).square_changes@.contains_key(p) && engine::same_square(
                    final(self).squares@,
                    old(self).squares@,
                    p,
                ),
            old(self).click_queue@.len() == 0 ==> final(self).squares@ == old(self).squares@
                && final(self).square_changes@ == old(self).square_changes@,
    {
        let ghost sq0 = self.squares@;
        let ghost ch0 = self.square_changes@;
        let mut i: usize = 0;
        while i < self.click_queue.len()
            invariant
                i <= self.click_queue@.len(),
                self.click_queue@ == old(self).click_queue@,
                self.players@ == old(self).players@,
                self.config == old(self).config,
                self.tps == old(self).tps,
                self.base == old(self).base,
                self.squares.wf(),
                self.square_changes.wf(),
                self.players.wf(),
                engine::squares_wf(self.squares@, self.config),
                engine::changes_track(self.squares@, self.square_changes@),
                forall|p: Position| #[trigger]
                    ch0.contains_key(p) ==> self.square_changes@.contains_key(p),
                forall|p: Position|
                    !(#[trigger] self.square_changes@.contains_key(p)) ==> !ch0.contains_key(p)
                        && engine::same_square(self.squares@, sq0, p),
                i == 0 ==> self.squares@ == sq0 && self.square_changes@ == ch0,
                engine::clicks_applied(
                    self.config,
                    old(self).click_queue@.take(i as int),
                    sq0,
                    ch0,
                    self.squares@,
                    self.square_changes@,
                ),
            decreases self.click_queue@.len() - i,
        {
            let click = self.click_queue[i];
            let ghost sq_pre = self.squares@;
            let ghost ch_pre = self.square_changes@;
            engine::apply_click(&mut self.squares, &mut self.square_changes, self.config, click);
            proof {
                engine::lemma_clicks_applied_snoc(
                    self.config,
                    old(self).click_queue@,
                    i as int,
                    sq0,
                    ch0,
                    sq_pre,
                    ch_pre,
                    self.squares@,
                    self.square_changes@,
                );
            }
            i += 1;
        }
        self.click_queue.clear();
        proof {
            assert(old(self).click_queue@.take(old(self).click_queue@.len() as int) =~= old(
                self,
            ).click_queue@);
        }
        proof {
            assert forall|p: Position|
                !(#[trigger] self.square_changes@.contains_key(p)) implies engine::same_square(
                self.squares@,
                self.base@,
                p,
            ) by {
                assert(engine::same_square(self.squares@, sq0, p));
                assert(engine::same_square(sq0, old(self).base@, p));
            }
        }
    }

    /// A tick-diff message reports, once per cell and accurately, the final
    /// state of every cell that changed since `base0`.
    pub open spec fn diff_reports(
        sq: Map<Position, Square>,
        base0: Map<Position, Square>,
        changes: Seq<(Position, SquareChange)>,
    ) -> bool {
        &&& forall|i: int, j: int|
            0 <= i < j < changes.len() ==> (#[trigger] changes[i]).0 != (#[trigger] changes[j]).0
        &&& forall|i: int|
            0 <= i < changes.len() ==> engine::change_matches(
                sq,
                (#[trigger] changes[i]).0,
                changes[i].1,
            )
        &&& forall|p: Position|
            !(#[trigger] engine::same_square(sq, base0, p)) ==> exists|i: int|
                0 <= i < changes.len() && (#[trigger] changes[i]).0 == p
    }

    /// Runs one tick: applies the buffered clicks in arrival order, then
    /// drains the diff accumulator. A broadcast happens exactly when the
    /// post-click accumulator is non-empty: the message then lists exactly
    /// its records — the final state after the whole click batch and every
    /// cascade, never per-click increments. A tick with no pending clicks
    /// and no pending diffs produces no broadcast.
    pub fn tick(&mut self) -> (r: Option<TickS2CMessage>)
        requires
            old(self).wf(),
        ensures
            final(self).wf(),
            final(self).players@ == old(self).players@,
            final(self).config == old(self).config,
            final(self).tps == old(self).tps,
            final(self).click_queue@.len() == 0,
            final(self).square_changes@ == Map::<Position, SquareChange>::empty(),
            final(self).base@ == final(self).squares@,
            old(self).click_queue@.len() == 0 && old(self).square_changes@ == Map::<
                Position,
                SquareChange,
            >::empty() ==> r is None && final(self).squares@ == old(self).squares@,
            old(self).square_changes@ != Map::<Position, SquareChange>::empty() ==> r is Some,
            exists|chm: Map<Position, SquareChange>|
                {
                    &&& #[trigger] engine::clicks_applied(
                        old(self).config,
                        old(self).click_queue@,
                        old(self).squares@,
                        old(self).square_changes@,
                        final(self).squares@,
                        chm,
                    )
                    &&& (r is Some <==> chm != Map::<Position, SquareChange>::empty())
                    &&& (r matches Some(m) ==> crate::posmap::entries_match(m.changes@, chm))
                },
            match r {
                Some(m) => m.changes@.len() > 0 && Self::diff_reports(
                    final(self).squares@,
                    old(self).base@,
                    m.changes@,
                ),
                None => final(self).squares@ == old(self).squares@ && forall|p: Position|
                    engine::same_square(final(self).squares@, old(self).base@, p),
            },
    {
        self.apply_clicks();
        let ghost chf = self.square_changes@;
        let drained = self.square_changes.take_entries();
        self.base = Ghost(self.squares@);
        proof {
            assert forall|p: Position|
                !(#[trigger] engine::same_square(self.squares@, old(self).base@, p)) implies exists|
                i: int,
            |
                0 <= i < drained@.len() && (#[trigger] drained@[i]).0 == p by {
                if !chf.contains_key(p) {
                    assert(engine::same_square(self.squares@, old(self).base@, p));
                }
                assert(chf.contains_key(p));
            }
            if drained@.len() == 0 {
                assert forall|p: Position| !(#[trigger] chf.contains_key(p)) by {
                    if chf.contains_key(p) {
                        let i = choose|i: int|
                            0 <= i < drained@.len() && (#[trigger] drained@[i]).0 == p;
                    }
                }
                assert forall|p: Position|
                    self.squares@.contains_key(p) == old(self).squares@.contains_key(p) && (
                    self.squares@.contains_key(p) ==> self.squares@[p] == old(self).squares@[p]) by {
                    assert(!chf.contains_key(p));
                    assert(engine::same_square(self.squares@, old(self).squares@, p));
                }
                assert(self.squares@ =~= old(self).squares@);
                assert forall|p: Position| engine::same_square(
                    self.squares@,
                    old(self).base@,
                    p,
                ) by {
                    assert(!chf.contains_key(p));
                }
            }
            if old(self).click_queue@.len() == 0 && old(self).square_changes@ == Map::<
                Position,
                SquareChange,
            >::empty() {
                assert(chf == old(self).square_changes@);
                if drained@.len() > 0 {
                    assert(chf.contains_key(drained@[0].0));
                }
            }
        }
        if drained.is_empty() {
            proof {
                assert(chf =~= Map::<Position, SquareChange>::empty());
                if old(self).square_changes@.contains_key(drained@[0].0) {
                }
                assert(old(self).square_changes@ =~= Map::<Position, SquareChange>::empty()) by {
                    assert forall|p: Position|
                        !(#[trigger] old(self).square_changes@.contains_key(p)) by {
                        assert(!chf.contains_key(p));
                    }
                }
            }
            None
        } else {
            proof {
                assert(chf.contains_key(drained@[0].0));
                assert(chf != Map::<Position, SquareChange>::empty());
            }
            Some(TickS2CMessage { changes: drained })
        }
    }

    /// Point-in-time copy of the registry and the grid, captured atomically
    /// between commands, as sent to a freshly joined player.
    pub fn snapshot(&self) -> (r: GameSnapshot)
        requires
            self.wf(),
        ensures
            crate::idmap::entries_match(r.players@, self.players@),
            crate::posmap::entries_match(r.squares@, self.squares@),
    {
        GameSnapshot { players: self.players.to_vec(), squares: self.squares.to_vec() }
    }

    /// The ids of every registered player: the recipient set of a
    /// broadcast, each id once.
    pub fn recipient_ids(&self) -> (r: Vec<PlayerID>)
        requires
            self.wf(),
        ensures
            forall|i: int, j: int| 0 <= i < j < r@.len() ==> r@[i] != r@[j],
            forall|i: int| 0 <= i < r@.len() ==> self.players@.contains_key(#[trigger] r@[i]),
            forall|id: PlayerID| #[trigger] self.players@.contains_key(id) ==> r@.contains(id),
    {
        let entries = self.players.to_vec();
        let mut r: Vec<PlayerID> = Vec::new();
        let mut i: usize = 0;
        while i < entries.len()
            invariant
                i <= entries@.len(),
                r@.len() == i,
                forall|j: int| 0 <= j < i ==> r@[j] == (#[trigger] entries@[j]).0,
            decreases entries@.len() - i,
        {
            r.push(entries[i].0);
            i += 1;
        }
        proof {
            assert forall|id: PlayerID| #[trigger] self.players@.contains_key(id) implies r@.contains(
                id,
            ) by {
                let j = choose|j: int| 0 <= j < entries@.len() && (#[trigger] entries@[j]).0 == id;
                assert(r@[j] == id);
            }
            assert forall|i: int, j: int| 0 <= i < j < r@.len() implies r@[i] != r@[j] by {
                assert((#[trigger] entries@[i]).0 != (#[trigger] entries@[j]).0);
            }
            assert forall|i: int| 0 <= i < r@.len() implies self.players@.contains_key(
                #[trigger] r@[i],
            ) by {
                assert(self.players@.contains_key((#[trigger] entries@[i]).0));
            }
        }
        r
    }

    /// Tries uniformly random cells for a new player's first square; the
    /// first free one receives `{owner: id, number: 1}` and a matching diff
    /// record, and is returned as the spawn point. The search is abandoned
    /// after 100 failed attempts (draws that hit an occupied cell): `None`
    /// is returned and the state left unchanged — the map-full condition.
    /// On an empty grid the first draw lands on a free cell, so the search
    /// always succeeds there.
    #[verifier::loop_isolation(false)]
    pub fn create_first_square_for_player(&mut self, id: PlayerID) -> (r: Option<Position>)
        requires
            old(self).wf(),
        ensures
            final(self).wf(),
            final(self).players@ == old(self).players@,
            final(self).config == old(self).config,
            final(self).tps == old(self).tps,
            final(self).click_queue@ == old(self).click_queue@,
            final(self).base == old(self).base,
            old(self).squares@ == Map::<Position, Square>::empty() ==> r is Some,
            match r {
                Some(pos) => pos.in_bounds(old(self).config.size) && !old(self).squares@.contains_key(pos) && final(self).squares@ == old(self).squares@.insert(
                    pos,
                    (Square { owner: id, number: 1 }),
                ) && final(self).square_changes@ == old(self).square_changes@.insert(
                    pos,
                    (SquareChange { id: Some(id), number: 1 }),
                ),
                None => final(self).squares@ == old(self).squares@ && final(self).square_changes@
                    == old(self).square_changes@,
            },
    {
        let mut unsuccessful_searches: u32 = 0;
        loop
            invariant
                unsuccessful_searches <= 99,
                *self == *old(self),
            decreases 100 - unsuccessful_searches,
        {
            let x = random_coordinate(self.config.size);
            let y = random_coordinate(self.config.size);
            let pos = Position { x, y };
            if self.squares.contains(pos) {
                proof {
                    assert(old(self).squares@ != Map::<Position, Square>::empty()) by {
                        assert(self.squares@.contains_key(pos));
                    }
                }
                unsuccessful_searches += 1;
                if unsuccessful_searches >= 100 {
                    return None;
                }
            } else {
                self.squares.insert(pos, Square { owner: id, number: 1 });
                self.square_changes.insert(pos, SquareChange { id: Some(id), number: 1 });
                return Some(pos);
            }
        }
    }

    /// What a successful join did: the state gained the player's registry
    /// entry and spawn square, and the side effects are the login message
    /// for the newcomer followed by a join notice broadcast to every
    /// registered player (the newcomer included).
    pub open spec fn join_outcome(
        pre: GameState,
        post: GameState,
        id: PlayerID,
        actions: Seq<Action>,
    ) -> bool {
        &&& actions.len() == 2
        &&& actions[0] matches Action::Send(to, OutboundMessage::Login(m)) && to == id && m.id
            == id && m.config == pre.config && m.spawn_point.in_bounds(pre.config.size)
            && !pre.squares@.contains_key(m.spawn_point) && post.squares@ == pre.squares@.insert(
            m.spawn_point,
            (Square { owner: id, number: 1 }),
        ) && post.square_changes@ == pre.square_changes@.insert(
            m.spawn_point,
            (SquareChange { id: Some(id), number: 1 }),
        ) && post.players@ == pre.players@.insert(id, m.color) && crate::idmap::entries_match(
            m.snapshot.players@,
            post.players@,
        ) && crate::posmap::entries_match(m.snapshot.squares@, post.squares@) && (actions[1]
            matches Action::Broadcast(OutboundMessage::Join(jm)) && jm.player_join == (id, m.color))
        &&& post.click_queue@ == pre.click_queue@
        &&& post.config == pre.config
        &&& post.tps == pre.tps
        &&& post.base == pre.base
    }

    /// Registers a new player: draws an id and a colour, places their first
    /// square at a random free cell, and returns the id together with the
    /// side effects — the login snapshot for the new session and a join
    /// notice broadcast. Returns `None`, leaving the state unchanged, when
    /// no free cell was found within the bounded search: the join is
    /// refused. Broadcast failures are the caller's to feed back as
    /// removals; if delivering the join notice to the newcomer's own queue
    /// fails, that removal releases the just-placed spawn square like any
    /// other territory — a deliberate choice.
    pub fn add_player(&mut self) -> (r: Option<(PlayerID, Vec<Action>)>)
        requires
            old(self).wf(),
        ensures
            final(self).wf(),
            old(self).squares@ == Map::<Position, Square>::empty() ==> r is Some,
            match r {
                Some(pr) => Self::join_outcome(*old(self), *final(self), pr.0, pr.1@),
                None => Self::same_core(*old(self), *final(self)),
            },
    {
        let id = crate::player::generate_id();
        let spawn = match self.create_first_square_for_player(id) {
            Some(pos) => pos,
            None => {
                return None;
            },
        };
        let color = crate::player::generate_random_color();
        self.players.insert(id, color);
        let snapshot = self.snapshot();
        let login = LoginDataS2CMessage {
            id,
            color,
            spawn_point: spawn,
            config: self.config,
            snapshot,
        };
        let mut actions: Vec<Action> = Vec::new();
        actions.push(Action::Send(id, OutboundMessage::Login(login)));
        actions.push(
            Action::Broadcast(OutboundMessage::Join(PlayerJoinS2CMessage { player_join: (id, color) })),
        );
        Some((id, actions))
    }

    /// What a removal did: the registry entry is gone, every square the
    /// player owned was released with a removal diff (all other cells and
    /// diff records untouched), and the side effects are a close
    /// instruction for the player's session — when one was registered —
    /// followed by a leave notice broadcast.
    pub open spec fn leave_outcome(
        pre: GameState,
        post: GameState,
        id: PlayerID,
        actions: Seq<Action>,
    ) -> bool {
        &&& post.players@ == pre.players@.remove(id)
        &&& forall|p: Position| #[trigger]
            post.squares@.contains_key(p) == (pre.squares@.contains_key(p) && pre.squares@[p].owner
                != id)
        &&& forall|p: Position| #[trigger]
            post.squares@.contains_key(p) ==> post.squares@[p] == pre.squares@[p]
        &&& forall|p: Position| #[trigger]
            pre.squares@.contains_key(p) && pre.squares@[p].owner == id
                ==> post.square_changes@.contains_key(p) && post.square_changes@[p]
                == SquareChange::removed()
        &&& forall|p: Position| #[trigger]
            pre.square_changes@.contains_key(p) ==> post.square_changes@.contains_key(p)
        &&& forall|p: Position| #[trigger]
            post.square_changes@.contains_key(p) ==> pre.square_changes@.contains_key(p) || (
            pre.squares@.contains_key(p) && pre.squares@[p].owner == id)
        &&& forall|p: Position| #[trigger]
            pre.square_changes@.contains_key(p) && !(pre.squares@.contains_key(p)
                && pre.squares@[p].owner == id) ==> post.square_changes@[p]
                == pre.square_changes@[p]
        &&& actions == if pre.players@.contains_key(id) {
            seq![
                Action::Close(id),
                Action::Broadcast(OutboundMessage::Leave((PlayerLeaveS2CMessage { left_id: id }))),
            ]
        } else {
            seq![Action::Broadcast(OutboundMessage::Leave((PlayerLeaveS2CMessage { left_id: id })))]
        }
        &&& post.click_queue@ == pre.click_queue@
        &&& post.config == pre.config
        &&& post.tps == pre.tps
        &&& post.base == pre.base
    }

    /// Removes a player: asks their session to close (when registered),
    /// broadcasts a leave notice — the close instruction comes first, so by
    /// the time the notice fans out the departed session is gone and only
    /// the remaining players receive it — drops the registry entry, and
    /// releases every square they owned, recording removal diffs. Removing
    /// an id that is no longer present is harmless and still broadcasts the
    /// notice.
    #[verifier::loop_isolation(false)]
    pub fn remove_player(&mut self, id: PlayerID) -> (r: Vec<Action>)
        requires
            old(self).wf(),
        ensures
            final(self).wf(),
            Self::leave_outcome(*old(self), *final(self), id, r@),
    {
        let mut actions: Vec<Action> = Vec::new();
        if self.players.contains(id) {
            actions.push(Action::Close(id));
        }
        actions.push(
            Action::Broadcast(OutboundMessage::Leave(PlayerLeaveS2CMessage { left_id: id })),
        );
        self.players.remove(id);
        let entries = self.squares.to_vec();
        let ghost sq0 = self.squares@;
        let ghost ch0 = self.square_changes@;
        let mut i: usize = 0;
        while i < entries.len()
            invariant
                i <= entries@.len(),
                self.players@ == old(self).players@.remove(id),
                self.config == old(self).config,
                self.tps == old(self).tps,
                self.click_queue@ == old(self).click_queue@,
                self.base == old(self).base,
                self.players.wf(),
                self.squares.wf(),
                self.square_changes.wf(),
                forall|p: Position| #[trigger]
                    self.squares@.contains_key(p) ==> sq0.contains_key(p) && self.squares@[p]
                        == sq0[p],
                forall|j: int|
                    0 <= j < i && (#[trigger] entries@[j]).1.owner == id
                        ==> !self.squares@.contains_key(entries@[j].0)
                        && self.square_changes@.contains_key(entries@[j].0)
                        && self.square_changes@[entries@[j].0] == SquareChange::removed(),
                forall|j: int|
                    i <= j < entries@.len() ==> self.squares@.contains_key(
                        (#[trigger] entries@[j]).0,
                    ),
                forall|j: int|
                    0 <= j < entries@.len() && (#[trigger] entries@[j]).1.owner != id
                        ==> self.squares@.contains_key(entries@[j].0),
                forall|p: Position| #[trigger]
                    ch0.contains_key(p) ==> self.square_changes@.contains_key(p),
                forall|p: Position| #[trigger]
                    self.square_changes@.contains_key(p) ==> ch0.contains_key(p) || (
                    sq0.contains_key(p) && sq0[p].owner == id),
                forall|p: Position| #[trigger]
                    ch0.contains_key(p) && !(sq0.contains_key(p) && sq0[p].owner == id)
                        ==> self.square_changes@[p] == ch0[p],
                engine::changes_track(self.squares@, self.square_changes@),
                forall|p: Position|
                    !(#[trigger] self.square_changes@.contains_key(p)) ==> engine::same_square(
                        self.squares@,
                        self.base@,
                        p,
                    ),
            decreases entries@.len() - i,
        {
            let entry = entries[i];
            if entry.1.owner == id {
                self.squares.remove(entry.0);
                self.square_changes.insert(entry.0, SquareChange::create_removed());
                proof {
                    assert forall|j: int|
                        i + 1 <= j < entries@.len() implies self.squares@.contains_key(
                        (#[trigger] entries@[j]).0,
                    ) by {
                        assert(entries@[j].0 != entries@[i as int].0);
                    }
                }
            }
            i += 1;
        }
        proof {
            assert forall|p: Position| #[trigger]
                self.squares@.contains_key(p) == (sq0.contains_key(p) && sq0[p].owner != id) by {
                if self.squares@.contains_key(p) && sq0[p].owner == id {
                    let j = choose|j: int|
                        0 <= j < entries@.len() && (#[trigger] entries@[j]).0 == p;
                    assert(entries@[j].1 == sq0[p]);
                    assert(!self.squares@.contains_key(p));
                }
                if sq0.contains_key(p) && sq0[p].owner != id {
                    let j = choose|j: int|
                        0 <= j < entries@.len() && (#[trigger] entries@[j]).0 == p;
                    assert(entries@[j].1 == sq0[p]);
                    assert(self.squares@.contains_key(p));
                }
            }
            assert forall|p: Position| #[trigger]
                sq0.contains_key(p) && sq0[p].owner == id implies self.square_changes@.contains_key(
                p,
            ) && self.square_changes@[p] == SquareChange::removed() by {
                let j = choose|j: int| 0 <= j < entries@.len() && (#[trigger] entries@[j]).0 == p;
                assert(entries@[j].1 == sq0[p]);
            }
            if old(self).players@.contains_key(id) {
                assert(actions@ =~= seq![
                    Action::Close(id),
                    Action::Broadcast(
                        OutboundMessage::Leave((PlayerLeaveS2CMessage { left_id: id })),
                    ),
                ]);
            } else {
                assert(actions@ =~= seq![
                    Action::Broadcast(
                        OutboundMessage::Leave((PlayerLeaveS2CMessage { left_id: id })),
                    ),
                ]);
            }
        }
        actions
    }

    /// Processes one queued command: clicks are buffered for the next tick,
    /// a tick runs the engine and yields at most one broadcast, joins and
    /// removals mutate the registry and yield their notices, and `Stop`
    /// ends the processing loop.
    pub fn handle_message(&mut self, message: ServerCommand) -> (r: (Flow, Vec<Action>))
        requires
            old(self).wf(),
        ensures
            final(self).wf(),
            final(self).config == old(self).config,
            final(self).tps == old(self).tps,
            match message {
                ServerCommand::PlayerClick(id, pos) => r.0 is Continue && r.1@.len() == 0 && final(self).click_queue@ == old(self).click_queue@.push((id, pos)) && final(self).players@
                    == old(self).players@ && final(self).squares@ == old(self).squares@ && final(self).square_changes@ == old(self).square_changes@ && final(self).base == old(self).base,
                ServerCommand::Tick => r.0 is Continue && final(self).click_queue@.len() == 0
                    && final(self).square_changes@ == Map::<Position, SquareChange>::empty()
                    && final(self).base@ == final(self).squares@ && final(self).players@ == old(self).players@ && r.1@.len() <= 1 && (old(self).click_queue@.len() == 0 && old(self).square_changes@ == Map::<Position, SquareChange>::empty() ==> r.1@.len() == 0
                    && final(self).squares@ == old(self).squares@) && (old(self).square_changes@
                    != Map::<Position, SquareChange>::empty() ==> r.1@.len() == 1) && (forall|k: int|
                    0 <= k < r.1@.len() ==> ((#[trigger] r.1@[k]) matches Action::Broadcast(
                        OutboundMessage::Tick(m),
                    ) && m.changes@.len() > 0 && Self::diff_reports(
                        final(self).squares@,
                        old(self).base@,
                        m.changes@,
                    ))),
                ServerCommand::Stop => r.0 is Break && r.1@.len() == 0 && Self::same_core(
                    *old(self),
                    *final(self),
                ),
                ServerCommand::AddPlayer => r.0 is Continue && (old(self).squares@ == Map::<
                    Position,
                    Square,
                >::empty() ==> r.1@.len() > 0) && (r.1@.len() == 0 ==> Self::same_core(
                    *old(self),
                    *final(self),
                )) && (r.1@.len() > 0 ==> exists|id: PlayerID|
                    Self::join_outcome(*old(self), *final(self), id, r.1@)),
                ServerCommand::RemovePlayer(id) => r.0 is Continue && Self::leave_outcome(
                    *old(self),
                    *final(self),
                    id,
                    r.1@,
                ),
            },
    {
        match message {
            ServerCommand::PlayerClick(id, pos) => {
                self.click_queue.push((id, pos));
                (Flow::Continue, Vec::new())
            },
            ServerCommand::Tick => {
                let mut actions: Vec<Action> = Vec::new();
                if let Some(m) = self.tick() {
                    actions.push(Action::Broadcast(OutboundMessage::Tick(m)));
                }
                (Flow::Continue, actions)
            },
            ServerCommand::Stop => (Flow::Break, Vec::new()),
            ServerCommand::AddPlayer => {
                match self.add_player() {
                    Some(pr) => {
                        proof {
                            assert(Self::join_outcome(*old(self), *self, pr.0, pr.1@));
                        }
                        (Flow::Continue, pr.1)
                    },
                    None => (Flow::Continue, Vec::new()),
                }
            },
            ServerCommand::RemovePlayer(id) => {
                let actions = self.remove_player(id);
                (Flow::Continue, actions)
            },
        }
    }
}

/// Relies on `rand::random_range` over `0..bound`: a coordinate drawn
/// uniformly from the range, which is non-empty since `bound >= 1`; the
/// result is strictly below `bound`, as the range is half-open.
#[verifier::external_body]
fn random_coordinate(bound: u32) -> (r: u32)
    requires
        1 <= bound,
    ensures
        r < bound,
{
    rand::random_range(0..bound)
}

} // verus!
