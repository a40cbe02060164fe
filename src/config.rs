//! Server settings with their defaults. Loading them from disk, and the
//! process-wide instance, belong to the program around the library.
use vstd::prelude::*;

verus! {

/// Protocol versions this server can speak.
pub const ALLOWED_VERSIONS: [u32; 13] = [393, 401, 404, 477, 480, 485, 490, 498, 573, 575, 578, 735, 736];

/// An IP address, by its octets or segments.
#[derive(Debug, Clone, Copy, PartialEq, Eq, Structural)]
pub enum IpAddress {
    V4(u8, u8, u8, u8),
    V6(u16, u16, u16, u16, u16, u16, u16, u16),
}

/// How much the server logs.
#[derive(Debug, Clone, Copy, PartialEq, Eq, Structural)]
pub enum TracingLevel {
    Off,
    Error,
    Warn,
    Info,
    Debug,
    Trace,
}

/// A position in the world; each coordinate is held as the bit pattern of
/// its 64-bit floating-point value.
#[derive(Debug, Clone, Copy, PartialEq, Eq, Structural)]
pub struct Position {
    pub x_bits: u64,
    pub y_bits: u64,
    pub z_bits: u64,
}

/// Yaw and pitch, each held as the bit pattern of its 32-bit floating-point
/// value.
#[derive(Debug, Clone, Copy, PartialEq, Eq, Structural)]
pub struct LookAngles {
    pub yaw_bits: u32,
    pub pitch_bits: u32,
}

pub struct ConnectionSettings {
    pub server_ip: IpAddress,
    pub server_port: u16,
}

impl Default for ConnectionSettings {
    /// Port 30000 on every interface.
    fn default() -> (r: ConnectionSettings)
        ensures
            r.server_port == 30000,
            r.server_ip == IpAddress::V4(0, 0, 0, 0),
    {
        ConnectionSettings { server_ip: IpAddress::V4(0, 0, 0, 0), server_port: 30000 }
    }
}

pub struct PlayerSettings {
    pub allow_flight: bool,
    pub max_view_distance: u8,
    pub spawn_position: Position,
    pub spawn_look: LookAngles,
}

impl Default for PlayerSettings {
    /// No flight, a view distance of 10, spawning at the origin looking
    /// straight ahead (all-zero bit patterns are 0.0).
    fn default() -> (r: PlayerSettings)
        ensures
            !r.allow_flight,
            r.max_view_distance == 10,
            r.spawn_position == (Position { x_bits: 0, y_bits: 0, z_bits: 0 }),
            r.spawn_look == (LookAngles { yaw_bits: 0, pitch_bits: 0 }),
    {
        PlayerSettings {
            allow_flight: false,
            max_view_distance: 10,
            spawn_position: Position { x_bits: 0, y_bits: 0, z_bits: 0 },
            spawn_look: LookAngles { yaw_bits: 0, pitch_bits: 0 },
        }
    }
}

pub struct ServerSettings {
    pub tracing_level: TracingLevel,
    pub max_players: i32,
    pub description: String,
    pub world: Option<String>,
}

impl Default for ServerSettings {
    /// Info logging, no player limit (-1), the stock description, no world file.
    fn default() -> (r: ServerSettings)
        ensures
            r.tracing_level == TracingLevel::Info,
            r.max_players == -1,
            r.description@ == "§eFalcon server§r§b!!!"@,
            r.world is None,
    {
        ServerSettings {
            tracing_level: TracingLevel::Info,
            max_players: -1,
            description: String::from_str("§eFalcon server§r§b!!!"),
            world: None,
        }
    }
}

pub struct VersionSettings {
    pub excluded: Vec<u32>,
}

impl Default for VersionSettings {
    /// No version excluded.
    fn default() -> (r: VersionSettings)
        ensures
            r.excluded@.len() == 0,
    {
        VersionSettings { excluded: Vec::new() }
    }
}

pub struct FalconConfig {
    pub connection: ConnectionSettings,
    pub players: PlayerSettings,
    pub server: ServerSettings,
    pub versions: VersionSettings,
}

impl Default for FalconConfig {
    /// Every group of settings at its default.
    fn default() -> (r: FalconConfig)
        ensures
            r.connection.server_port == 30000,
            r.connection.server_ip == IpAddress::V4(0, 0, 0, 0),
            !r.players.allow_flight,
            r.players.max_view_distance == 10,
            r.players.spawn_position == (Position { x_bits: 0, y_bits: 0, z_bits: 0 }),
            r.players.spawn_look == (LookAngles { yaw_bits: 0, pitch_bits: 0 }),
            r.server.tracing_level == TracingLevel::Info,
            r.server.description@ == "§eFalcon server§r§b!!!"@,
            r.server.max_players == -1,
            r.server.world is None,
            r.versions.excluded@.len() == 0,
    {
        FalconConfig {
            connection: ConnectionSettings::default(),
            players: PlayerSettings::default(),
            server: ServerSettings::default(),
            versions: VersionSettings::default(),
        }
    }
}

impl FalconConfig {
    pub fn server_port(&self) -> (r: u16)
        ensures
            r == self.connection.server_port,
    {
        self.connection.server_port
    }

    pub fn server_ip(&self) -> (r: IpAddress)
        ensures
            r == self.connection.server_ip,
    {
        self.connection.server_ip
    }

    pub fn max_players(&self) -> (r: i32)
        ensures
            r == self.server.max_players,
    {
        self.server.max_players
    }

    pub fn description(&self) -> (r: &str)
        ensures
            r@ == self.server.description@,
    {
        self.server.description.as_str()
    }

    pub fn world_file(&self) -> (r: Option<&str>)
        ensures
            r matches Some(w) <==> self.server.world is Some,
            r matches Some(w) ==> w@ == self.server.world->0@,
    {
        match &self.server.world {
            Some(w) => Some(w.as_str()),
            None => None,
        }
    }

    pub fn tracing_level(&self) -> (r: TracingLevel)
        ensures
            r == self.server.tracing_level,
    {
        self.server.tracing_level
    }

    pub fn allow_flight(&self) -> (r: bool)
        ensures
            r == self.players.allow_flight,
    {
        self.players.allow_flight
    }

    pub fn max_view_distance(&self) -> (r: u8)
        ensures
            r == self.players.max_view_distance,
    {
        self.players.max_view_distance
    }

    pub fn spawn_pos(&self) -> (r: Position)
        ensures
            r == self.players.spawn_position,
    {
        self.players.spawn_position
    }

    pub fn spawn_look(&self) -> (r: LookAngles)
        ensures
            r == self.players.spawn_look,
    {
        self.players.spawn_look
    }

    pub fn excluded_versions(&self) -> (r: &Vec<u32>)
        ensures
            r == &self.versions.excluded,
    {
        &self.versions.excluded
    }
}

} // verus!
