//! Payloads of the wire protocol, and the outbound effects the relay's
//! handlers produce. Handlers never touch a socket: they return a list
//! of effects, and the network shell delivers each to its session.
use vstd::prelude::*;

verus! {

/// A tile position as it travels on the wire.
#[derive(Debug)]
pub struct Position {
    pub map_id: String,
    pub x: i32,
    pub y: i32,
}

impl Clone for Position {
    fn clone(&self) -> (res: Self)
        ensures
            res == *self,
    {
        Position { map_id: self.map_id.clone(), x: self.x, y: self.y }
    }
}

/// Duplicate a vector of strings, element for element.
pub fn clone_string_vec(v: &Vec<String>) -> (r: Vec<String>)
    ensures
        r@ == v@,
{
    let mut r: Vec<String> = Vec::new();
    let mut i: usize = 0;
    while i < v.len()
        invariant
            i <= v@.len(),
            r@ =~= v@.subrange(0, i as int),
        decreases v@.len() - i,
    {
        r.push(v[i].clone());
        i = i + 1;
    }
    proof {
        assert(v@.subrange(0, v@.len() as int) =~= v@);
    }
    r
}

#[derive(Debug, Clone, Copy, PartialEq, Eq, Structural)]
pub enum AccessMode {
    Open,
    Whitelist,
    Blacklist,
}

/// Who may enter a room: everyone, only the listed keys, or everyone
/// but the listed keys; the owner always may.
#[derive(Debug)]
pub struct AccessPolicy {
    pub mode: AccessMode,
    pub list: Vec<String>,
}

impl Clone for AccessPolicy {
    fn clone(&self) -> (res: Self)
        ensures
            res.mode == self.mode,
            res.list@ == self.list@,
    {
        AccessPolicy { mode: self.mode, list: clone_string_vec(&self.list) }
    }
}

#[derive(Debug, Clone, Copy, PartialEq, Eq, Structural)]
pub enum ChatScope {
    Local,
    Whisper,
    Room,
}

/// Movement direction as it travels on the wire.
#[derive(Debug, Clone, Copy, PartialEq, Eq, Hash, Structural)]
pub enum Direction {
    Up,
    Down,
    Left,
    Right,
}

/// The movement-engine direction a wire direction names.
pub open spec fn spec_world_dir(d: Direction) -> crate::physics::Direction {
    match d {
        Direction::Up => crate::physics::Direction::Up,
        Direction::Down => crate::physics::Direction::Down,
        Direction::Left => crate::physics::Direction::Left,
        Direction::Right => crate::physics::Direction::Right,
    }
}

impl Direction {
    /// The same direction for the movement engine.
    pub fn to_world(self) -> (r: crate::physics::Direction)
        ensures
            r == spec_world_dir(self),
    {
        match self {
            Direction::Up => crate::physics::Direction::Up,
            Direction::Down => crate::physics::Direction::Down,
            Direction::Left => crate::physics::Direction::Left,
            Direction::Right => crate::physics::Direction::Right,
        }
    }
}

/// The dev fee as announced in `server.hello`.
#[derive(Debug)]
pub struct DevFeeConfig {
    pub mode: String,
    pub value: u32,
}

#[derive(Debug)]
pub struct ServerHello {
    pub server_version: String,
    pub challenge: String,
    pub fee_config: DevFeeConfig,
    pub room_price_xmr: String,
    pub username_fee_xmr: String,
}

#[derive(Debug)]
pub struct ClientAuth {
    pub pubkey: String,
    pub challenge_sig: String,
    pub client_version: String,
    pub x25519_pubkey: Option<String>,
}

#[derive(Debug)]
pub struct ServerWelcome {
    pub client_id: String,
    pub display_name: Option<String>,
    pub position: Position,
    pub session_id: String,
}

#[derive(Debug, Clone, Copy, PartialEq, Eq, Structural)]
pub struct ClientMove {
    pub dir: Direction,
}

/// An end-to-end encryption envelope; the relay never reads inside.
#[derive(Debug)]
pub struct EncryptedPayload {
    pub alg: String,
    pub nonce: String,
    pub ciphertext: String,
    pub sender_key: Option<String>,
}

impl Clone for EncryptedPayload {
    fn clone(&self) -> (res: Self)
        ensures
            res.alg@ == self.alg@,
            res.nonce@ == self.nonce@,
            res.ciphertext@ == self.ciphertext@,
            res.sender_key == self.sender_key,
    {
        EncryptedPayload {
            alg: self.alg.clone(),
            nonce: self.nonce.clone(),
            ciphertext: self.ciphertext.clone(),
            sender_key: match &self.sender_key {
                Some(k) => Some(k.clone()),
                None => None,
            },
        }
    }
}

#[derive(Debug)]
pub struct ClientChat {
    pub scope: Option<ChatScope>,
    pub text: String,
    pub target: Option<String>,
    pub enc: Option<EncryptedPayload>,
}

#[derive(Debug)]
pub struct ClientCommand {
    pub name: String,
    pub args: Vec<String>,
}

#[derive(Debug)]
pub struct ClientRoomAccessUpdate {
    pub room_id: String,
    pub mode: AccessMode,
    pub list: Vec<String>,
}

#[derive(Debug)]
pub struct ClientHeartbeat {
    pub nonce: String,
}

#[derive(Debug)]
pub struct ClientRoomKey {
    pub room_id: String,
    pub target: String,
    pub sender_key: String,
    pub nonce: String,
    pub ciphertext: String,
}

#[derive(Debug)]
pub struct ServerState {
    pub position: Position,
}

#[derive(Debug)]
pub struct ServerMapChange {
    pub map_id: String,
    pub position: Position,
}

#[derive(Debug)]
pub struct ServerChat {
    pub from: String,
    pub display_name: Option<String>,
    pub text: String,
    pub scope: ChatScope,
    pub room_id: Option<String>,
    pub enc: Option<EncryptedPayload>,
}

#[derive(Debug)]
pub struct NearbyUser {
    pub id: String,
    pub display_name: Option<String>,
    pub x: i32,
    pub y: i32,
    pub x25519_pubkey: Option<String>,
}

#[derive(Debug)]
pub struct ServerNearby {
    pub users: Vec<NearbyUser>,
}

#[derive(Debug)]
pub struct WhoUser {
    pub id: String,
    pub display_name: Option<String>,
}

#[derive(Debug)]
pub struct ServerWho {
    pub users: Vec<WhoUser>,
}

#[derive(Debug)]
pub struct ServerRoomInfo {
    pub room_id: String,
    pub owner: Option<String>,
    pub price_xmr: String,
    pub for_sale: bool,
    pub access: AccessPolicy,
    pub display_name: Option<String>,
    pub door_color: Option<String>,
}

#[derive(Debug)]
pub struct ServerTxUpdate {
    pub tx_id: String,
    pub status: String,
    pub confirmations: u32,
}

#[derive(Debug)]
pub struct ServerError {
    pub code: String,
    pub message: String,
}

#[derive(Debug)]
pub struct ServerNotice {
    pub text: String,
}

/// One train's place on the ring, in milli-tiles.
#[derive(Debug, Clone, Copy, PartialEq, Eq, Structural)]
pub struct TrainInfo {
    pub id: u32,
    pub x_milli: u64,
    pub clockwise: bool,
}

#[derive(Debug)]
pub struct ServerTrainState {
    pub trains: Vec<TrainInfo>,
}

#[derive(Debug)]
pub struct ServerHeartbeat {
    pub nonce: String,
}

#[derive(Debug)]
pub struct ServerRoomKey {
    pub room_id: String,
    pub from: String,
    pub sender_key: String,
    pub nonce: String,
    pub ciphertext: String,
}

/// An outbound server message, before the envelope is put around it.
#[derive(Debug)]
pub enum ServerMsg {
    Hello(ServerHello),
    Welcome(ServerWelcome),
    State(ServerState),
    MapChange(ServerMapChange),
    Chat(ServerChat),
    Nearby(ServerNearby),
    Who(ServerWho),
    RoomInfo(ServerRoomInfo),
    TxUpdate(ServerTxUpdate),
    Error(ServerError),
    Notice(ServerNotice),
    TrainState(ServerTrainState),
    RoomKey(ServerRoomKey),
}

impl ServerMsg {
    /// The envelope `type` field this message travels under.
    pub fn msg_type(&self) -> (r: &'static str)
        ensures
            r@ == match self {
                ServerMsg::Hello(_) => "server.hello"@,
                ServerMsg::Welcome(_) => "server.welcome"@,
                ServerMsg::State(_) => "server.state"@,
                ServerMsg::MapChange(_) => "server.map_change"@,
                ServerMsg::Chat(_) => "server.chat"@,
                ServerMsg::Nearby(_) => "server.nearby"@,
                ServerMsg::Who(_) => "server.who"@,
                ServerMsg::RoomInfo(_) => "server.room_info"@,
                ServerMsg::TxUpdate(_) => "server.tx_update"@,
                ServerMsg::Error(_) => "server.error"@,
                ServerMsg::Notice(_) => "server.notice"@,
                ServerMsg::TrainState(_) => "server.train_state"@,
                ServerMsg::RoomKey(_) => "server.room_key"@,
            },
    {
        match self {
            ServerMsg::Hello(_) => "server.hello",
            ServerMsg::Welcome(_) => "server.welcome",
            ServerMsg::State(_) => "server.state",
            ServerMsg::MapChange(_) => "server.map_change",
            ServerMsg::Chat(_) => "server.chat",
            ServerMsg::Nearby(_) => "server.nearby",
            ServerMsg::Who(_) => "server.who",
            ServerMsg::RoomInfo(_) => "server.room_info",
            ServerMsg::TxUpdate(_) => "server.tx_update",
            ServerMsg::Error(_) => "server.error",
            ServerMsg::Notice(_) => "server.notice",
            ServerMsg::TrainState(_) => "server.train_state",
            ServerMsg::RoomKey(_) => "server.room_key",
        }
    }
}

/// One thing the network shell must do after a handler returns.
#[derive(Debug)]
pub enum Effect {
    /// Deliver `msg` on the session of the user named `to`.
    Send { to: String, msg: ServerMsg },
    /// Persist the user collection.
    SaveUsers,
    /// Persist the room collection.
    SaveRooms,
}

/// `e` is an error message `code` sent to `to`.
pub open spec fn eff_is_error(e: Effect, to: Seq<char>, code: Seq<char>) -> bool {
    e matches Effect::Send { to: t, msg: ServerMsg::Error(err) } && t@ == to && err.code@ == code
}

/// `e` is a notice with text `text` sent to `to`.
pub open spec fn eff_is_notice(e: Effect, to: Seq<char>, text: Seq<char>) -> bool {
    e matches Effect::Send { to: t, msg: ServerMsg::Notice(n) } && t@ == to && n.text@ == text
}

/// `e` is some notice sent to `to`.
pub open spec fn eff_is_some_notice(e: Effect, to: Seq<char>) -> bool {
    e matches Effect::Send { to: t, msg: ServerMsg::Notice(n) } && t@ == to
}

/// Build an error effect.
pub fn send_error(to: &str, code: &str, message: &str) -> (r: Effect)
    ensures
        eff_is_error(r, to@, code@),
        (r matches Effect::Send { to: t, msg: ServerMsg::Error(err) } && err.message@ == message@),
{
    Effect::Send {
        to: to.to_owned(),
        msg: ServerMsg::Error(
            ServerError { code: code.to_owned(), message: message.to_owned() },
        ),
    }
}

/// Build a notice effect.
pub fn send_notice(to: &str, text: &str) -> (r: Effect)
    ensures
        eff_is_notice(r, to@, text@),
{
    Effect::Send { to: to.to_owned(), msg: ServerMsg::Notice(ServerNotice { text: text.to_owned() }) }
}

} // verus!
