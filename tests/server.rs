use crossword_collab::errors::AppError;
use crossword_collab::models::{SolutionItem, SolutionItemDto};
use crossword_collab::server::{Connect, Disconnect, Move, MoveServer};
use crossword_collab::session::{HeartbeatAction, WsSession, CLIENT_TIMEOUT_MS};

fn session(id: u128, user: &str, team: &str, crossword: &str) -> WsSession {
    WsSession { id, hb: 0, user: user.to_string(), team: team.to_string(), crossword: crossword.to_string() }
}

fn edit(x: i64, y: i64, value: &str) -> SolutionItemDto {
    SolutionItemDto { x, y, value: value.to_string() }
}

fn item(x: i64, y: i64, value: &str, by: &str) -> SolutionItem {
    SolutionItem { x, y, value: value.to_string(), modified_by: by.to_string() }
}

fn server_with(sessions: Vec<WsSession>) -> MoveServer {
    let mut server = MoveServer::new();
    for s in sessions {
        server.handle_connect(Connect { session: s }, Ok(None));
    }
    server
}

#[test]
fn connect_replays_the_stored_solution() {
    let mut server = MoveServer::new();
    let snapshot = server.handle_connect(
        Connect { session: session(1, "ann", "t", "c") },
        Ok(Some(vec![item(0, 0, "A", "bob"), item(1, 0, "", "bob")])),
    );
    assert_eq!(snapshot, vec![edit(0, 0, "A"), edit(1, 0, "")]);
}

#[test]
fn connect_without_edits_gets_an_empty_snapshot() {
    let mut server = MoveServer::new();
    assert_eq!(server.handle_connect(Connect { session: session(1, "ann", "t", "c") }, Ok(None)), vec![]);
    assert_eq!(server.handle_connect(Connect { session: session(2, "bob", "t", "c") }, Ok(Some(vec![]))), vec![]);
}

#[test]
fn connect_when_the_store_fails_gets_an_empty_snapshot() {
    let mut server = MoveServer::new();
    let snapshot = server.handle_connect(
        Connect { session: session(1, "ann", "t", "c") },
        Err(AppError::InternalServerError("down".to_string())),
    );
    assert_eq!(snapshot, vec![]);
    let sender = session(9, "zed", "t", "c");
    assert_eq!(server.broadcast_moves(&sender), vec![1]);
}

#[test]
fn broadcast_reaches_only_the_room_without_the_sender() {
    let server = server_with(vec![
        session(1, "ann", "t", "c"),
        session(2, "bob", "t", "c"),
        session(3, "cy", "t", "other"),
        session(4, "di", "u", "c"),
        session(5, "ed", "t", "c"),
    ]);
    assert_eq!(server.broadcast_moves(&session(2, "bob", "t", "c")), vec![1, 5]);
    assert_eq!(server.broadcast_moves(&session(3, "cy", "t", "other")), Vec::<u128>::new());
}

#[test]
fn disconnect_is_idempotent() {
    let mut server = server_with(vec![session(1, "ann", "t", "c"), session(2, "bob", "t", "c")]);
    server.handle_disconnect(Disconnect { id: 1 });
    server.handle_disconnect(Disconnect { id: 1 });
    server.handle_disconnect(Disconnect { id: 42 });
    assert_eq!(server.broadcast_moves(&session(7, "x", "t", "c")), vec![2]);
}

#[test]
fn reconnect_with_the_same_id_keeps_one_session() {
    let server = server_with(vec![session(1, "ann", "t", "c"), session(1, "ann", "t", "c")]);
    assert_eq!(server.broadcast_moves(&session(7, "x", "t", "c")), vec![1]);
}

#[test]
fn move_stores_and_sends_only_the_changes() {
    let server = server_with(vec![session(1, "ann", "t", "c"), session(2, "bob", "t", "c")]);
    let msg = Move { solution_items: vec![edit(0, 0, "A"), edit(1, 0, "B")], sender: session(1, "ann", "t", "c") };
    let plan = server.handle_move(&msg, Some(vec![item(0, 0, "A", "bob")]));
    assert_eq!(plan.changed, vec![edit(1, 0, "B")]);
    let mut written = plan.write.clone().unwrap();
    written.sort_by_key(|i| (i.x, i.y));
    assert_eq!(written, vec![item(0, 0, "A", "bob"), item(1, 0, "B", "ann")]);
    assert_eq!(plan.recipients, vec![2]);
    assert_eq!(plan.deliveries(true), vec![2]);
}

#[test]
fn move_with_unchanged_values_writes_and_sends_nothing() {
    let server = server_with(vec![session(1, "ann", "t", "c"), session(2, "bob", "t", "c")]);
    let msg = Move { solution_items: vec![edit(0, 0, "A")], sender: session(1, "ann", "t", "c") };
    let plan = server.handle_move(&msg, Some(vec![item(0, 0, "A", "bob")]));
    assert!(plan.changed.is_empty());
    assert!(plan.write.is_none());
    assert!(plan.recipients.is_empty());
}

#[test]
fn move_on_a_fresh_solution_starts_from_empty() {
    let server = server_with(vec![session(1, "ann", "t", "c")]);
    let msg = Move { solution_items: vec![edit(2, 3, "Q")], sender: session(1, "ann", "t", "c") };
    let plan = server.handle_move(&msg, None);
    assert_eq!(plan.write, Some(vec![item(2, 3, "Q", "ann")]));
    assert_eq!(plan.changed, vec![edit(2, 3, "Q")]);
    assert!(plan.recipients.is_empty());
}

#[test]
fn failed_store_aborts_the_broadcast() {
    let server = server_with(vec![session(1, "ann", "t", "c"), session(2, "bob", "t", "c")]);
    let msg = Move { solution_items: vec![edit(0, 0, "A")], sender: session(1, "ann", "t", "c") };
    let plan = server.handle_move(&msg, None);
    assert_eq!(plan.recipients, vec![2]);
    assert_eq!(plan.deliveries(false), Vec::<u128>::new());
}

#[test]
fn silent_session_times_out_and_stops_receiving() {
    let mut server = server_with(vec![session(1, "ann", "t", "c"), session(2, "bob", "t", "c")]);
    let quiet = session(2, "bob", "t", "c");
    assert_eq!(quiet.hb(CLIENT_TIMEOUT_MS), HeartbeatAction::Ping);
    assert_eq!(quiet.hb(CLIENT_TIMEOUT_MS + 1), HeartbeatAction::TimedOut);
    server.handle_disconnect(quiet.stopping());
    let msg = Move { solution_items: vec![edit(0, 0, "A")], sender: session(1, "ann", "t", "c") };
    let plan = server.handle_move(&msg, None);
    assert!(plan.recipients.is_empty());
}
