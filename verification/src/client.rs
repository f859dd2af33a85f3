//! The client's decisions: how it reads the server's reply to a room
//! creation, and how its main menu moves between screens.

use vstd::prelude::*;
use vstd::string::*;
use crate::protocol::ServerMessage;
use crate::server::spec_room_creation_response;

verus! {

/// The screens of the client.
#[derive(Debug, Clone, Copy, PartialEq, Eq)]
pub enum GameState {
    MainMenu,
    Loading,
    JoiningRoom,
    Lobby,
    Game,
}

impl Default for GameState {
    /// The client starts on the main menu.
    fn default() -> (s: Self)
        ensures
            s == GameState::MainMenu,
    {
        GameState::MainMenu
    }
}

/// An event of the user interface that is handed on to the network side.
#[derive(Debug, Clone, Copy, PartialEq, Eq)]
pub enum UiEvent {
    CreateRoom,
}

/// The kind of a failed request.
#[derive(Debug, Clone, Copy, PartialEq, Eq)]
pub enum FailureKind {
    /// The server's reply could not be read, or was not one that fits.
    InvalidData,
    /// The server reported an error.
    Other,
}

/// A failed request: its kind and a message.
#[derive(Debug, Clone, PartialEq, Eq)]
pub struct RequestFailure {
    pub kind: FailureKind,
    pub message: String,
}

/// The outcome of a room creation, given the server's reply as decoded
/// (`None` when it could not be decoded): the room's code, the server's
/// error, or a failure when the reply is missing or of another kind.
pub open spec fn spec_room_creation_outcome(reply: Option<ServerMessage>) -> Result<
    Seq<char>,
    (FailureKind, Seq<char>),
> {
    match reply {
        None => Err((FailureKind::InvalidData, "Response from server was invalid"@)),
        Some(ServerMessage::RoomCreated { code }) => Ok(code@),
        Some(ServerMessage::RoomCreationError { error }) => Err((FailureKind::Other, error@)),
        Some(_) => Err((FailureKind::InvalidData, "Invalid response from server"@)),
    }
}

/// What a room creation gives the client, from the server's reply as
/// decoded (`None` when it could not be decoded).
pub fn room_creation_outcome(reply: Option<ServerMessage>) -> (out: Result<String, RequestFailure>)
    ensures
        match (out, spec_room_creation_outcome(reply)) {
            (Ok(code), Ok(c)) => code@ == c,
            (Err(f), Err((kind, message))) => f.kind == kind && f.message@ == message,
            _ => false,
        },
{
    match reply {
        None => Err(
            RequestFailure {
                kind: FailureKind::InvalidData,
                message: String::from_str("Response from server was invalid"),
            },
        ),
        Some(ServerMessage::RoomCreated { code }) => Ok(code),
        Some(ServerMessage::RoomCreationError { error }) => Err(
            RequestFailure { kind: FailureKind::Other, message: error },
        ),
        Some(_) => Err(
            RequestFailure {
                kind: FailureKind::InvalidData,
                message: String::from_str("Invalid response from server"),
            },
        ),
    }
}

/// The client reads from the server's reply to a room creation exactly
/// what the server put in it: the room's code, or the server's error as an
/// error of kind `Other`.
pub proof fn lemma_client_reads_server_reply(outcome: Result<String, String>)
    ensures
        spec_room_creation_outcome(Some(spec_room_creation_response(outcome))) == (match outcome {
            Ok(code) => Ok(code@),
            Err(error) => Err((FailureKind::Other, error@)),
        }),
{
}

/// An input to the main menu.
#[derive(Debug, PartialEq, Eq)]
pub enum MenuInput {
    /// The "Create Room" button was pressed.
    CreateRoomPressed,
    /// The "Quit" button was pressed.
    QuitPressed,
    /// The room creation running in the background finished: the room's
    /// code, or the text of its error.
    RoomTaskFinished(Result<String, String>),
}

/// What the client does after an input to the main menu.
#[derive(Debug, Clone, PartialEq, Eq)]
pub enum MenuAction {
    /// Nothing.
    Nothing,
    /// Start the room creation in the background.
    StartRoomTask,
    /// Leave the application.
    Exit,
    /// Tell the user that a room was created with this code.
    ReportRoom(String),
    /// Tell the user of this error.
    ReportError(String),
}

/// The main menu's state: the screen shown and whether a room creation is
/// running in the background.
#[derive(Debug, Clone, PartialEq, Eq)]
pub struct MenuFlow {
    pub state: GameState,
    pub room_task_pending: bool,
}

impl MenuFlow {
    /// The menu when the client starts: main menu, nothing running.
    pub fn new() -> (m: Self)
        ensures
            m.state == GameState::MainMenu,
            !m.room_task_pending,
    {
        MenuFlow { state: GameState::MainMenu, room_task_pending: false }
    }

    /// Handles one input. The buttons act only on the main menu: "Create
    /// Room" starts a room creation and shows the loading screen, "Quit"
    /// leaves. A room creation that finishes while the main menu or the
    /// loading screen is shown brings the main menu back and reports its
    /// outcome. Any other input changes nothing.
    pub fn step(&mut self, input: MenuInput) -> (action: MenuAction)
        ensures
            match input {
                MenuInput::CreateRoomPressed => if old(self).state == GameState::MainMenu {
                    &&& final(self).state == GameState::Loading
                    &&& final(self).room_task_pending
                    &&& action == MenuAction::StartRoomTask
                } else {
                    &&& *final(self) == *old(self)
                    &&& action == MenuAction::Nothing
                },
                MenuInput::QuitPressed => {
                    &&& *final(self) == *old(self)
                    &&& action == (if old(self).state == GameState::MainMenu {
                        MenuAction::Exit
                    } else {
                        MenuAction::Nothing
                    })
                },
                MenuInput::RoomTaskFinished(outcome) => if old(self).room_task_pending && (
                old(self).state == GameState::MainMenu || old(self).state == GameState::Loading) {
                    &&& final(self).state == GameState::MainMenu
                    &&& !final(self).room_task_pending
                    &&& action == (match outcome {
                        Ok(code) => MenuAction::ReportRoom(code),
                        Err(e) => MenuAction::ReportError(e),
                    })
                } else {
                    &&& *final(self) == *old(self)
                    &&& action == MenuAction::Nothing
                },
            },
    {
        let in_main_menu = match self.state {
            GameState::MainMenu => true,
            _ => false,
        };
        let in_loading = match self.state {
            GameState::Loading => true,
            _ => false,
        };
        match input {
            MenuInput::CreateRoomPressed => {
                if in_main_menu {
                    self.state = GameState::Loading;
                    self.room_task_pending = true;
                    MenuAction::StartRoomTask
                } else {
                    MenuAction::Nothing
                }
            },
            MenuInput::QuitPressed => {
                if in_main_menu {
                    MenuAction::Exit
                } else {
                    MenuAction::Nothing
                }
            },
            MenuInput::RoomTaskFinished(outcome) => {
                if self.room_task_pending && (in_main_menu || in_loading) {
                    self.state = GameState::MainMenu;
                    self.room_task_pending = false;
                    match outcome {
                        Ok(code) => MenuAction::ReportRoom(code),
                        Err(e) => MenuAction::ReportError(e),
                    }
                } else {
                    MenuAction::Nothing
                }
            },
        }
    }
}

} // verus!
