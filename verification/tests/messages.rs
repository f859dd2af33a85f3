use bear_island::client::{
    room_creation_outcome, FailureKind, GameState, MenuAction, MenuFlow, MenuInput, RequestFailure,
    UiEvent,
};
use bear_island::game::{drag_step, DragOutcome};
use bear_island::protocol::{ClientMessage, JoinError, ServerMessage, SocketAddress};
use bear_island::server::{dispatch, room_creation_response, ServerAction};

#[test]
fn server_creates_rooms_on_request() {
    assert_eq!(dispatch(&ClientMessage::CreateRoom), ServerAction::CreateRoom);
}

#[test]
fn server_has_no_reply_for_join_requests() {
    let msg = ClientMessage::JoinRoom { code: "ABCDEF".to_string() };
    assert_eq!(dispatch(&msg), ServerAction::NoReply);
}

#[test]
fn server_reply_to_room_creation() {
    assert_eq!(
        room_creation_response(Ok("ABC234".to_string())),
        ServerMessage::RoomCreated { code: "ABC234".to_string() }
    );
    assert_eq!(
        room_creation_response(Err("no room host".to_string())),
        ServerMessage::RoomCreationError { error: "no room host".to_string() }
    );
}

#[test]
fn client_reads_created_room() {
    let reply = ServerMessage::RoomCreated { code: "XYZ789".to_string() };
    assert_eq!(room_creation_outcome(Some(reply)), Ok("XYZ789".to_string()));
}

#[test]
fn client_reads_server_error() {
    let reply = ServerMessage::RoomCreationError { error: "boom".to_string() };
    assert_eq!(
        room_creation_outcome(Some(reply)),
        Err(RequestFailure { kind: FailureKind::Other, message: "boom".to_string() })
    );
}

#[test]
fn client_rejects_other_replies() {
    let expected = Err(RequestFailure {
        kind: FailureKind::InvalidData,
        message: "Invalid response from server".to_string(),
    });
    let found = ServerMessage::RoomFound {
        address: SocketAddress::V4 { octets: [127, 0, 0, 1], port: 27016 },
    };
    assert_eq!(room_creation_outcome(Some(found)), expected);
    let join = ServerMessage::RoomJoinError { reason: JoinError::RoomFull };
    assert_eq!(room_creation_outcome(Some(join)), expected);
    let join = ServerMessage::RoomJoinError { reason: JoinError::RoomDoesntExist };
    assert_eq!(room_creation_outcome(Some(join)), expected);
}

#[test]
fn client_rejects_undecodable_reply() {
    assert_eq!(
        room_creation_outcome(None),
        Err(RequestFailure {
            kind: FailureKind::InvalidData,
            message: "Response from server was invalid".to_string(),
        })
    );
}

#[test]
fn menu_starts_on_main_menu() {
    let flow = MenuFlow::new();
    assert_eq!(flow.state, GameState::MainMenu);
    assert!(!flow.room_task_pending);
    assert_eq!(GameState::default(), GameState::MainMenu);
    assert_eq!(UiEvent::CreateRoom, UiEvent::CreateRoom);
}

#[test]
fn create_room_button_starts_task_and_shows_loading() {
    let mut flow = MenuFlow::new();
    assert_eq!(flow.step(MenuInput::CreateRoomPressed), MenuAction::StartRoomTask);
    assert_eq!(flow.state, GameState::Loading);
    assert!(flow.room_task_pending);
    assert_eq!(flow.step(MenuInput::CreateRoomPressed), MenuAction::Nothing);
    assert_eq!(flow.step(MenuInput::QuitPressed), MenuAction::Nothing);
    assert_eq!(flow.state, GameState::Loading);
}

#[test]
fn finished_task_returns_to_main_menu() {
    let mut flow = MenuFlow::new();
    flow.step(MenuInput::CreateRoomPressed);
    let action = flow.step(MenuInput::RoomTaskFinished(Ok("ABCDEF".to_string())));
    assert_eq!(action, MenuAction::ReportRoom("ABCDEF".to_string()));
    assert_eq!(flow.state, GameState::MainMenu);
    assert!(!flow.room_task_pending);

    flow.step(MenuInput::CreateRoomPressed);
    let action = flow.step(MenuInput::RoomTaskFinished(Err("refused".to_string())));
    assert_eq!(action, MenuAction::ReportError("refused".to_string()));
    assert_eq!(flow, MenuFlow::new());
}

#[test]
fn finished_task_without_pending_task_is_ignored() {
    let mut flow = MenuFlow::new();
    let action = flow.step(MenuInput::RoomTaskFinished(Ok("ABCDEF".to_string())));
    assert_eq!(action, MenuAction::Nothing);
    assert_eq!(flow, MenuFlow::new());
}

#[test]
fn quit_button_exits_from_main_menu() {
    let mut flow = MenuFlow::new();
    assert_eq!(flow.step(MenuInput::QuitPressed), MenuAction::Exit);
    assert_eq!(flow, MenuFlow::new());
}

#[test]
fn buttons_do_nothing_outside_main_menu() {
    for state in [GameState::Lobby, GameState::Game, GameState::JoiningRoom] {
        let mut flow = MenuFlow { state, room_task_pending: true };
        assert_eq!(flow.step(MenuInput::CreateRoomPressed), MenuAction::Nothing);
        assert_eq!(flow.step(MenuInput::QuitPressed), MenuAction::Nothing);
        assert_eq!(flow.step(MenuInput::RoomTaskFinished(Ok("A".to_string()))), MenuAction::Nothing);
        assert_eq!(flow, MenuFlow { state, room_task_pending: true });
    }
}

#[test]
fn dragged_bear_follows_held_button() {
    assert_eq!(drag_step(true, false, true), DragOutcome { being_dragged: true, follow_mouse: true });
    assert_eq!(drag_step(true, true, true), DragOutcome { being_dragged: true, follow_mouse: true });
}

#[test]
fn dragged_bear_is_let_go_on_release() {
    assert_eq!(drag_step(true, true, false), DragOutcome { being_dragged: false, follow_mouse: false });
}

#[test]
fn bear_is_picked_up_only_when_touched_with_button_down() {
    assert_eq!(drag_step(false, true, true), DragOutcome { being_dragged: true, follow_mouse: false });
    assert_eq!(drag_step(false, true, false), DragOutcome { being_dragged: false, follow_mouse: false });
    assert_eq!(drag_step(false, false, true), DragOutcome { being_dragged: false, follow_mouse: false });
}

#[test]
fn client_reads_back_server_reply() {
    let reply = room_creation_response(Ok("MN2345".to_string()));
    assert_eq!(room_creation_outcome(Some(reply)), Ok("MN2345".to_string()));
    let reply = room_creation_response(Err("spawn failed".to_string()));
    assert_eq!(
        room_creation_outcome(Some(reply)),
        Err(RequestFailure { kind: FailureKind::Other, message: "spawn failed".to_string() })
    );
}
