use territory::game::{Action, Flow, GameState, OutboundMessage, ServerCommand};
use territory::idmap::IdMap;
use territory::schemas::{GameConfig, PlayerID, Position, Square, SquareChange};

fn pos(x: u32, y: u32) -> Position {
    Position { x, y }
}

/// Joins a player and returns their id and spawn point, read out of the
/// login message the actor asks to send.
fn join(st: &mut GameState) -> (PlayerID, Position) {
    let (id, actions) = st.add_player().expect("the grid has room for a spawn square");
    assert_eq!(actions.len(), 2);
    let spawn = match &actions[0] {
        Action::Send(to, OutboundMessage::Login(m)) => {
            assert_eq!(*to, id);
            assert_eq!(m.id, id);
            m.spawn_point
        },
        _ => panic!("the first join effect must be the login message"),
    };
    match &actions[1] {
        Action::Broadcast(OutboundMessage::Join(jm)) => {
            assert_eq!(jm.player_join.0, id);
        },
        _ => panic!("the second join effect must be the join notice"),
    }
    (id, spawn)
}

fn owned_by(st: &GameState, id: PlayerID) -> Vec<Position> {
    st.snapshot()
        .squares
        .into_iter()
        .filter(|e| e.1.owner == id)
        .map(|e| e.0)
        .collect()
}

#[test]
fn fresh_state_has_default_config() {
    let st = GameState::new();
    assert_eq!(st.config, GameConfig { size: 20, max_number: 4 });
    assert_eq!(st.tps, 60);
    let snap = st.snapshot();
    assert!(snap.players.is_empty());
    assert!(snap.squares.is_empty());
}

#[test]
fn idle_tick_produces_no_broadcast() {
    let mut st = GameState::new();
    assert!(st.tick().is_none());
    let (flow, actions) = st.handle_message(ServerCommand::Tick);
    assert!(matches!(flow, Flow::Continue));
    assert!(actions.is_empty());
}

#[test]
fn stop_breaks_the_loop_without_effects() {
    let mut st = GameState::new();
    let (flow, actions) = st.handle_message(ServerCommand::Stop);
    assert!(matches!(flow, Flow::Break));
    assert!(actions.is_empty());
}

#[test]
fn join_places_one_spawn_square_and_snapshots_it() {
    let mut st = GameState::new();
    let (id, spawn) = join(&mut st);
    let snap = st.snapshot();
    assert_eq!(snap.players.len(), 1);
    assert_eq!(snap.players[0].0, id);
    assert_eq!(snap.squares, vec![(spawn, Square { owner: id, number: 1 })]);
    // The spawn square reaches the clients with the next tick's diff.
    let m = st.tick().expect("the spawn square is a pending diff");
    assert_eq!(m.changes, vec![(spawn, SquareChange { id: Some(id), number: 1 })]);
    // Afterwards the accumulator is drained.
    assert!(st.tick().is_none());
}

#[test]
fn join_is_refused_when_the_grid_is_full() {
    let mut st = GameState::new_with_config(GameConfig { size: 1, max_number: 4 });
    let (id, spawn) = join(&mut st);
    assert_eq!(spawn, pos(0, 0));
    // The single cell is taken: the bounded spawn search gives up and the
    // would-be player is not registered.
    assert!(st.add_player().is_none());
    let snap = st.snapshot();
    assert_eq!(snap.players.len(), 1);
    assert_eq!(snap.players[0].0, id);
    assert_eq!(snap.squares.len(), 1);
}

#[test]
fn clicks_are_deferred_to_the_tick_and_batched() {
    let mut st = GameState::new();
    let (id, spawn) = join(&mut st);
    st.tick();
    let (flow, actions) = st.handle_message(ServerCommand::PlayerClick(id, spawn));
    assert!(matches!(flow, Flow::Continue));
    assert!(actions.is_empty());
    // Not applied yet: the snapshot still shows count 1.
    assert_eq!(owned_by(&st, id), vec![spawn]);
    assert_eq!(
        st.snapshot().squares,
        vec![(spawn, Square { owner: id, number: 1 })]
    );
    let (_, actions) = st.handle_message(ServerCommand::Tick);
    assert_eq!(actions.len(), 1);
    match &actions[0] {
        Action::Broadcast(OutboundMessage::Tick(m)) => {
            assert_eq!(
                m.changes,
                vec![(spawn, SquareChange { id: Some(id), number: 2 })]
            );
        },
        _ => panic!("a non-empty tick diff must be broadcast"),
    }
    assert_eq!(
        st.snapshot().squares,
        vec![(spawn, Square { owner: id, number: 2 })]
    );
}

#[test]
fn removing_a_player_releases_their_squares_and_notifies() {
    let mut st = GameState::new();
    let (id_a, spawn_a) = join(&mut st);
    let (id_b, spawn_b) = join(&mut st);
    assert_ne!(spawn_a, spawn_b);
    st.tick();
    let actions = st.remove_player(id_a);
    assert_eq!(actions.len(), 2);
    assert!(matches!(actions[0], Action::Close(i) if i == id_a));
    match &actions[1] {
        Action::Broadcast(OutboundMessage::Leave(lm)) => assert_eq!(lm.left_id, id_a),
        _ => panic!("a removal must broadcast the leave notice"),
    }
    // No square with that owner remains; the other player is untouched.
    assert!(owned_by(&st, id_a).is_empty());
    assert_eq!(owned_by(&st, id_b), vec![spawn_b]);
    let recipients = st.recipient_ids();
    assert_eq!(recipients, vec![id_b]);
    // The released cell goes out as a removal diff.
    let m = st.tick().expect("the released square is a pending diff");
    assert_eq!(m.changes, vec![(spawn_a, SquareChange { id: None, number: 0 })]);
}

#[test]
fn removing_an_absent_player_is_idempotent() {
    let mut st = GameState::new();
    let (id, _) = join(&mut st);
    st.tick();
    let first = st.remove_player(id);
    assert_eq!(first.len(), 2);
    // A second removal no longer finds a session to close but still
    // broadcasts the notice.
    let second = st.remove_player(id);
    assert_eq!(second.len(), 1);
    assert!(matches!(
        &second[0],
        Action::Broadcast(OutboundMessage::Leave(lm)) if lm.left_id == id
    ));
}

#[test]
fn fanout_failure_feeds_back_into_removal_without_hurting_others() {
    // Two players with disjoint squares. A tick diff is broadcast to the
    // full recipient set; when one player's session has already closed, its
    // id comes back as a failed delivery, the actor removes that player,
    // and the other player keeps their squares and keeps receiving.
    let mut st = GameState::new();
    let (id_a, spawn_a) = join(&mut st);
    let (id_b, spawn_b) = join(&mut st);
    st.tick();
    st.handle_message(ServerCommand::PlayerClick(id_a, spawn_a));
    st.handle_message(ServerCommand::PlayerClick(id_b, spawn_b));
    let (_, actions) = st.handle_message(ServerCommand::Tick);
    assert_eq!(actions.len(), 1);
    let recipients = st.recipient_ids();
    assert_eq!(recipients.len(), 2);
    assert!(recipients.contains(&id_a) && recipients.contains(&id_b));
    // Player B's queue was closed: the fanout reports B as failed and the
    // caller feeds the id back as a removal command.
    let (flow, actions) = st.handle_message(ServerCommand::RemovePlayer(id_b));
    assert!(matches!(flow, Flow::Continue));
    assert!(actions.len() == 2);
    assert_eq!(st.recipient_ids(), vec![id_a]);
    assert_eq!(owned_by(&st, id_a), vec![spawn_a]);
    assert!(owned_by(&st, id_b).is_empty());
}

#[test]
fn registry_insert_replaces_an_existing_entry() {
    let mut reg: IdMap<(u8, u8, u8)> = IdMap::empty();
    reg.insert(7, (1, 2, 3));
    reg.insert(9, (4, 5, 6));
    reg.insert(7, (9, 9, 9));
    assert_eq!(reg.get(7), Some((9, 9, 9)));
    assert_eq!(reg.get(9), Some((4, 5, 6)));
    assert_eq!(reg.remove(7), Some((9, 9, 9)));
    assert!(!reg.contains(7));
    assert_eq!(reg.to_vec(), vec![(9, (4, 5, 6))]);
}
