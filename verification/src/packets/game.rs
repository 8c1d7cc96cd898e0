//! Connected game packets: small data carriers serialized to and from
//! the opaque payloads the reliability layer transports.
//!
//! Floating-point quantities are carried as their 32-bit patterns: the
//! codec moves them byte for byte and never computes with them.

use vstd::prelude::*;

use vstd::string::StringSliceAdditionalSpecFns;

use crate::wire::{
    put_bool, put_bytes, put_string, put_u16_le, put_u32_le, put_u64_le, put_u8, put_var_i32,
    put_var_i64, put_var_u32, put_var_u64, read_bool, read_bytes, read_u8, read_var_u32,
    spec_read_bytes, spec_read_u8, spec_read_var_u32, string_bytes, u16_le_bytes, u32_le_bytes,
    u64_le_bytes, var_u32_bytes, var_u64_bytes, zigzag32, zigzag64,
};

verus! {

/// Why a game packet failed to parse.
#[derive(Debug, Copy, Clone, PartialEq, Eq, Structural)]
pub enum PacketError {
    /// The buffer ended inside a field.
    Truncated,
    /// A tag field held no known value.
    InvalidEnum,
}

/// The signed value a zigzag-mapped group decodes to.
pub open spec fn unzigzag32(z: u32) -> i32 {
    if z & 1 == 0 {
        (z >> 1) as i32
    } else {
        (!(z >> 1)) as i32
    }
}

/// Reads a zigzag-mapped signed 32-bit value.
pub fn read_var_i32(d: &[u8], pos: &mut usize) -> (r: Option<i32>)
    ensures
        match spec_read_var_u32(d@, *old(pos) as int, 0, 0) {
            Some((z, j)) => r == Some(unzigzag32(z)) && *final(pos) == j,
            None => r is None,
        },
{
    let z = match read_var_u32(d, pos) {
        Some(v) => v,
        None => {
            return None;
        },
    };
    if z & 1 == 0 {
        Some((z >> 1) as i32)
    } else {
        Some(#[verifier::truncate] ((!(z >> 1)) as i32))
    }
}

/// A position or direction; three 32-bit patterns, moved but never
/// computed with here.
#[derive(Debug, Copy, Clone, PartialEq, Eq, Structural)]
pub struct Vector3f {
    pub x: u32,
    pub y: u32,
    pub z: u32,
}

/// The wire form of a [`Vector3f`]: three little-endian words.
pub open spec fn spec_vec3f_bytes(v: Vector3f) -> Seq<u8> {
    u32_le_bytes(v.x) + u32_le_bytes(v.y) + u32_le_bytes(v.z)
}

/// Appends a [`Vector3f`].
pub fn put_vec3f(buf: &mut Vec<u8>, v: &Vector3f)
    ensures
        final(buf)@ == old(buf)@ + spec_vec3f_bytes(*v),
{
    put_u32_le(buf, v.x);
    put_u32_le(buf, v.y);
    put_u32_le(buf, v.z);
    assert(buf@ =~= old(buf)@ + spec_vec3f_bytes(*v));
}

/// Reads a [`Vector3f`]: three little-endian 32-bit patterns.
pub open spec fn spec_read_vec3f(d: Seq<u8>, i: int) -> Option<(Vector3f, int)> {
    match crate::wire::spec_read_u32_le(d, i) {
        None => None,
        Some((x, i1)) => match crate::wire::spec_read_u32_le(d, i1) {
            None => None,
            Some((y, i2)) => match crate::wire::spec_read_u32_le(d, i2) {
                None => None,
                Some((z, i3)) => Some((Vector3f { x, y, z }, i3)),
            },
        },
    }
}

/// Reads a [`Vector3f`].
pub fn get_vec3f(d: &[u8], pos: &mut usize) -> (r: Option<Vector3f>)
    ensures
        match spec_read_vec3f(d@, *old(pos) as int) {
            Some((v, j)) => r == Some(v) && *final(pos) == j,
            None => r is None,
        },
{
    let x = match crate::wire::read_u32_le(d, pos) {
        Some(v) => v,
        None => {
            return None;
        },
    };
    let y = match crate::wire::read_u32_le(d, pos) {
        Some(v) => v,
        None => {
            return None;
        },
    };
    let z = match crate::wire::read_u32_le(d, pos) {
        Some(v) => v,
        None => {
            return None;
        },
    };
    Some(Vector3f { x, y, z })
}

/// A colour; four 32-bit patterns.
#[derive(Debug, Copy, Clone, PartialEq, Eq, Structural)]
pub struct Vector4f {
    pub x: u32,
    pub y: u32,
    pub z: u32,
    pub w: u32,
}

/// The wire form of a [`Vector4f`]: four little-endian words.
pub open spec fn spec_vec4f_bytes(v: Vector4f) -> Seq<u8> {
    u32_le_bytes(v.x) + u32_le_bytes(v.y) + u32_le_bytes(v.z) + u32_le_bytes(v.w)
}

/// Appends a [`Vector4f`].
pub fn put_vec4f(buf: &mut Vec<u8>, v: &Vector4f)
    ensures
        final(buf)@ == old(buf)@ + spec_vec4f_bytes(*v),
{
    put_u32_le(buf, v.x);
    put_u32_le(buf, v.y);
    put_u32_le(buf, v.z);
    put_u32_le(buf, v.w);
    assert(buf@ =~= old(buf)@ + spec_vec4f_bytes(*v));
}

/// An integer block position.
#[derive(Debug, Copy, Clone, PartialEq, Eq, Structural)]
pub struct Vector3i {
    pub x: i32,
    pub y: i32,
    pub z: i32,
}

/// Reads a [`Vector3i`] written as three zigzag-mapped groups.
pub open spec fn spec_read_vec3i(d: Seq<u8>, i: int) -> Option<(Vector3i, int)> {
    match spec_read_var_u32(d, i, 0, 0) {
        None => None,
        Some((zx, i1)) => match spec_read_var_u32(d, i1, 0, 0) {
            None => None,
            Some((zy, i2)) => match spec_read_var_u32(d, i2, 0, 0) {
                None => None,
                Some((zz, i3)) => Some(
                    (
                        Vector3i {
                            x: unzigzag32(zx),
                            y: unzigzag32(zy),
                            z: unzigzag32(zz),
                        },
                        i3,
                    ),
                ),
            },
        },
    }
}

/// Reads a [`Vector3i`].
pub fn get_vec3i(d: &[u8], pos: &mut usize) -> (r: Option<Vector3i>)
    ensures
        match spec_read_vec3i(d@, *old(pos) as int) {
            Some((v, j)) => r == Some(v) && *final(pos) == j,
            None => r is None,
        },
{
    let x = match read_var_i32(d, pos) {
        Some(v) => v,
        None => {
            return None;
        },
    };
    let y = match read_var_i32(d, pos) {
        Some(v) => v,
        None => {
            return None;
        },
    };
    let z = match read_var_i32(d, pos) {
        Some(v) => v,
        None => {
            return None;
        },
    };
    Some(Vector3i { x, y, z })
}

/// The Minecraft game modes.
#[derive(Debug, Copy, Clone, PartialEq, Eq, Structural)]
pub enum GameMode {
    Survival,
    Creative,
    Adventure,
    Spectator,
    /// The world's default game mode.
    WorldDefault,
}

impl GameMode {
    /// The numeric code each mode travels as.
    pub open spec fn spec_code(self) -> i32 {
        match self {
            GameMode::Survival => 0,
            GameMode::Creative => 1,
            GameMode::Adventure => 2,
            GameMode::Spectator => 3,
            GameMode::WorldDefault => 5,
        }
    }

    /// Executable twin of [`Self::spec_code`].
    pub fn code(self) -> (r: i32)
        ensures
            r == self.spec_code(),
    {
        match self {
            GameMode::Survival => 0,
            GameMode::Creative => 1,
            GameMode::Adventure => 2,
            GameMode::Spectator => 3,
            GameMode::WorldDefault => 5,
        }
    }

    /// The mode a numeric code names; none for any other value.
    pub open spec fn spec_from_code(value: i32) -> Option<GameMode> {
        if value == 0 {
            Some(GameMode::Survival)
        } else if value == 1 {
            Some(GameMode::Creative)
        } else if value == 2 {
            Some(GameMode::Adventure)
        } else if value == 3 {
            Some(GameMode::Spectator)
        } else if value == 5 {
            Some(GameMode::WorldDefault)
        } else {
            None
        }
    }

    /// Maps a numeric code to its mode, rejecting exactly the unknown
    /// codes.
    pub fn try_from(value: i32) -> (r: Result<GameMode, PacketError>)
        ensures
            match GameMode::spec_from_code(value) {
                Some(m) => r == Result::<GameMode, PacketError>::Ok(m),
                None => r == Result::<GameMode, PacketError>::Err(PacketError::InvalidEnum),
            },
    {
        if value == 0 {
            Ok(GameMode::Survival)
        } else if value == 1 {
            Ok(GameMode::Creative)
        } else if value == 2 {
            Ok(GameMode::Adventure)
        } else if value == 3 {
            Ok(GameMode::Spectator)
        } else if value == 5 {
            Ok(GameMode::WorldDefault)
        } else {
            Err(PacketError::InvalidEnum)
        }
    }
}

/// Sets the player's game mode.
#[derive(Debug, Copy, Clone, PartialEq, Eq, Structural)]
pub struct SetPlayerGameMode {
    /// Game mode to apply.
    pub game_mode: GameMode,
}

impl SetPlayerGameMode {
    /// Wire id of this packet.
    pub const ID: u32 = 0x3e;

    /// The encoded packet: the mode's code, zigzag mapped.
    pub open spec fn spec_serialized(self) -> Seq<u8> {
        var_u32_bytes(zigzag32(self.game_mode.spec_code()))
    }

    /// Number of bytes the encoded packet occupies.
    pub fn serialized_size(&self) -> (r: usize)
        ensures
            r == self.spec_serialized().len(),
    {
        let z: u32 = zigzag32_exec(self.game_mode.code());
        var_u32_size(z)
    }

    /// Appends the encoded packet.
    pub fn serialize(&self, buffer: &mut Vec<u8>)
        ensures
            final(buffer)@ == old(buffer)@ + self.spec_serialized(),
    {
        put_var_i32(buffer, self.game_mode.code());
    }

    /// Parses the packet, rejecting a truncated buffer and an unknown
    /// mode code.
    pub fn deserialize(data: &[u8]) -> (r: Result<SetPlayerGameMode, PacketError>)
        ensures
            match spec_read_var_u32(data@, 0, 0, 0) {
                None => r == Result::<SetPlayerGameMode, PacketError>::Err(PacketError::Truncated),
                Some((z, _)) => match GameMode::spec_from_code(unzigzag32(z)) {
                    Some(m) => r == Result::<SetPlayerGameMode, PacketError>::Ok(
                        SetPlayerGameMode { game_mode: m },
                    ),
                    None => r == Result::<SetPlayerGameMode, PacketError>::Err(
                        PacketError::InvalidEnum,
                    ),
                },
            },
    {
        let mut pos: usize = 0;
        let v = match read_var_i32(data, &mut pos) {
            Some(v) => v,
            None => {
                return Err(PacketError::Truncated);
            },
        };
        let game_mode = match GameMode::try_from(v) {
            Ok(m) => m,
            Err(e) => {
                return Err(e);
            },
        };
        Ok(SetPlayerGameMode { game_mode })
    }
}

/// The zigzag mapping, executably.
pub fn zigzag32_exec(v: i32) -> (r: u32)
    ensures
        r == zigzag32(v),
{
    ((v << 1i32) ^ (v >> 31i32)) as u32
}

/// A variable-length 32-bit encoding spans at most five bytes.
pub proof fn lemma_var_u32_len(v: u32)
    ensures
        var_u32_bytes(v).len() <= 5,
{
    reveal_with_fuel(var_u32_bytes, 6);
    assert(((((v >> 7) >> 7) >> 7) >> 7) < 0x80) by (bit_vector);
}

/// A variable-length 64-bit encoding spans at most ten bytes.
pub proof fn lemma_var_u64_len(v: u64)
    ensures
        var_u64_bytes(v).len() <= 10,
{
    reveal_with_fuel(var_u64_bytes, 11);
    assert((((((((((v >> 7) >> 7) >> 7) >> 7) >> 7) >> 7) >> 7) >> 7) >> 7) < 0x80)
        by (bit_vector);
}

/// Number of bytes the variable-length encoding of a value occupies.
pub fn var_u32_size(v: u32) -> (r: usize)
    ensures
        r == var_u32_bytes(v).len(),
    decreases v,
{
    if v < 0x80 {
        1
    } else {
        proof {
            assert(v >= 0x80 ==> v >> 7 < v) by (bit_vector);
            lemma_var_u32_len(v >> 7);
        }
        1 + var_u32_size(v >> 7)
    }
}

/// Phase of a respawn exchange.
#[derive(Debug, Copy, Clone, PartialEq, Eq, Structural)]
pub enum RespawnState {
    Searching,
    ServerReady,
    ClientReady,
}

impl RespawnState {
    /// The numeric code each state travels as.
    pub open spec fn spec_code(self) -> u8 {
        match self {
            RespawnState::Searching => 0,
            RespawnState::ServerReady => 1,
            RespawnState::ClientReady => 2,
        }
    }

    /// Executable twin of [`Self::spec_code`].
    pub fn code(self) -> (r: u8)
        ensures
            r == self.spec_code(),
    {
        match self {
            RespawnState::Searching => 0,
            RespawnState::ServerReady => 1,
            RespawnState::ClientReady => 2,
        }
    }

    /// The state a numeric code names; none for any other value.
    pub open spec fn spec_from_code(value: u8) -> Option<RespawnState> {
        if value == 0 {
            Some(RespawnState::Searching)
        } else if value == 1 {
            Some(RespawnState::ServerReady)
        } else if value == 2 {
            Some(RespawnState::ClientReady)
        } else {
            None
        }
    }

    /// Maps a numeric code to its state, rejecting exactly the unknown
    /// codes.
    pub fn try_from(value: u8) -> (r: Result<RespawnState, PacketError>)
        ensures
            match RespawnState::spec_from_code(value) {
                Some(m) => r == Result::<RespawnState, PacketError>::Ok(m),
                None => r == Result::<RespawnState, PacketError>::Err(PacketError::InvalidEnum),
            },
    {
        if value == 0 {
            Ok(RespawnState::Searching)
        } else if value == 1 {
            Ok(RespawnState::ServerReady)
        } else if value == 2 {
            Ok(RespawnState::ClientReady)
        } else {
            Err(PacketError::InvalidEnum)
        }
    }
}

/// Moves a player through the respawn exchange.
#[derive(Debug, Copy, Clone, PartialEq, Eq, Structural)]
pub struct Respawn {
    /// Respawn position.
    pub position: Vector3f,
    /// Phase of the exchange.
    pub state: RespawnState,
    /// Runtime id of the player.
    pub runtime_id: u64,
}

impl Respawn {
    /// Wire id of this packet.
    pub const ID: u32 = 0x2d;

    /// The encoded packet: position, state code, runtime id.
    pub open spec fn spec_serialized(self) -> Seq<u8> {
        spec_vec3f_bytes(self.position) + seq![self.state.spec_code()] + var_u64_bytes(
            self.runtime_id,
        )
    }

    /// Number of bytes the encoded packet occupies.
    pub fn serialized_size(&self) -> (r: usize)
        ensures
            r == self.spec_serialized().len(),
    {
        proof {
            lemma_var_u64_len(self.runtime_id);
        }
        12 + 1 + var_u64_size(self.runtime_id)
    }

    /// Appends the encoded packet.
    pub fn serialize(&self, buffer: &mut Vec<u8>)
        ensures
            final(buffer)@ == old(buffer)@ + self.spec_serialized(),
    {
        put_vec3f(buffer, &self.position);
        put_u8(buffer, self.state.code());
        put_var_u64(buffer, self.runtime_id);
        assert(buffer@ =~= old(buffer)@ + self.spec_serialized());
    }

    /// Parses the packet: position, state code and runtime id,
    /// rejecting a truncated buffer and an unknown state code.
    pub fn deserialize(data: &[u8]) -> (r: Result<Respawn, PacketError>)
        ensures
            match spec_read_vec3f(data@, 0) {
                None => r == Result::<Respawn, PacketError>::Err(PacketError::Truncated),
                Some((p, i1)) => match spec_read_u8(data@, i1) {
                    None => r == Result::<Respawn, PacketError>::Err(PacketError::Truncated),
                    Some((code, i2)) => match RespawnState::spec_from_code(code) {
                        None => r == Result::<Respawn, PacketError>::Err(PacketError::InvalidEnum),
                        Some(st) => match crate::wire::spec_read_var_u64(data@, i2, 0, 0) {
                            None => r == Result::<Respawn, PacketError>::Err(
                                PacketError::Truncated,
                            ),
                            Some((rid, _)) => r == Result::<Respawn, PacketError>::Ok(
                                Respawn { position: p, state: st, runtime_id: rid },
                            ),
                        },
                    },
                },
            },
    {
        let mut pos: usize = 0;
        let position = match get_vec3f(data, &mut pos) {
            Some(v) => v,
            None => {
                return Err(PacketError::Truncated);
            },
        };
        let code = match read_u8(data, &mut pos) {
            Some(v) => v,
            None => {
                return Err(PacketError::Truncated);
            },
        };
        let state = match RespawnState::try_from(code) {
            Ok(v) => v,
            Err(e) => {
                return Err(e);
            },
        };
        let runtime_id = match crate::wire::read_var_u64(data, &mut pos) {
            Some(v) => v,
            None => {
                return Err(PacketError::Truncated);
            },
        };
        Ok(Respawn { position, state, runtime_id })
    }
}

/// Number of bytes the variable-length encoding of a 64-bit value
/// occupies.
pub fn var_u64_size(v: u64) -> (r: usize)
    ensures
        r == var_u64_bytes(v).len(),
    decreases v,
{
    if v < 0x80 {
        1
    } else {
        proof {
            assert(v >= 0x80 ==> v >> 7 < v) by (bit_vector);
            lemma_var_u64_len(v >> 7);
        }
        1 + var_u64_size(v >> 7)
    }
}

/// Closes an open container window.
#[derive(Debug, Copy, Clone, PartialEq, Eq, Structural)]
pub struct ContainerClose {
    /// Window being closed.
    pub window_id: u8,
    /// Whether the server forced the close.
    pub server_initiated: bool,
}

impl ContainerClose {
    /// Wire id of this packet.
    pub const ID: u32 = 0x2f;

    /// The encoded packet: the window id and the forced flag.
    pub open spec fn spec_serialized(self) -> Seq<u8> {
        seq![self.window_id, if self.server_initiated {
            1u8
        } else {
            0u8
        }]
    }

    /// Number of bytes the encoded packet occupies.
    pub fn serialized_size(&self) -> (r: usize)
        ensures
            r == self.spec_serialized().len(),
    {
        2
    }

    /// Appends the encoded packet.
    pub fn serialize(&self, buffer: &mut Vec<u8>)
        ensures
            final(buffer)@ == old(buffer)@ + self.spec_serialized(),
    {
        put_u8(buffer, self.window_id);
        put_bool(buffer, self.server_initiated);
        assert(buffer@ =~= old(buffer)@ + self.spec_serialized());
    }
}

/// Enables or disables command usage; a client with commands disabled
/// will not even send any.
#[derive(Debug, Copy, Clone, PartialEq, Eq, Structural)]
pub struct SetCommandsEnabled {
    /// Whether commands are enabled.
    pub enabled: bool,
}

impl SetCommandsEnabled {
    /// Wire id of this packet.
    pub const ID: u32 = 0x3b;

    /// The encoded packet: one flag byte.
    pub open spec fn spec_serialized(self) -> Seq<u8> {
        seq![if self.enabled {
            1u8
        } else {
            0u8
        }]
    }

    /// Number of bytes the encoded packet occupies.
    pub fn serialized_size(&self) -> (r: usize)
        ensures
            r == self.spec_serialized().len(),
    {
        1
    }

    /// Appends the encoded packet.
    pub fn serialize(&self, buffer: &mut Vec<u8>)
        ensures
            final(buffer)@ == old(buffer)@ + self.spec_serialized(),
    {
        put_bool(buffer, self.enabled);
        assert(buffer@ =~= old(buffer)@ + self.spec_serialized());
    }
}

/// Sent when the user picks a block with the block-pick key.
#[derive(Debug, Copy, Clone, PartialEq, Eq, Structural)]
pub struct BlockPickRequest {
    /// Position of the block to pick.
    pub position: Vector3i,
    /// Whether the block's extra tag data travels along.
    pub with_nbt: bool,
    /// Hotbar slot the item lands in.
    pub hotbar_slot: u8,
}

impl BlockPickRequest {
    /// Wire id of this packet.
    pub const ID: u32 = 0x22;

    /// Parses the packet: a position, a flag and a slot.
    pub fn deserialize(data: &[u8]) -> (r: Result<BlockPickRequest, PacketError>)
        ensures
            match spec_read_vec3i(data@, 0) {
                None => r == Result::<BlockPickRequest, PacketError>::Err(PacketError::Truncated),
                Some((p, i1)) => match spec_read_u8(data@, i1) {
                    None => r == Result::<BlockPickRequest, PacketError>::Err(
                        PacketError::Truncated,
                    ),
                    Some((flag, i2)) => match spec_read_u8(data@, i2) {
                        None => r == Result::<BlockPickRequest, PacketError>::Err(
                            PacketError::Truncated,
                        ),
                        Some((slot, _)) => r == Result::<BlockPickRequest, PacketError>::Ok(
                            BlockPickRequest { position: p, with_nbt: flag != 0, hotbar_slot: slot },
                        ),
                    },
                },
            },
    {
        let mut pos: usize = 0;
        let position = match get_vec3i(data, &mut pos) {
            Some(v) => v,
            None => {
                return Err(PacketError::Truncated);
            },
        };
        let with_nbt = match read_bool(data, &mut pos) {
            Some(v) => v,
            None => {
                return Err(PacketError::Truncated);
            },
        };
        let hotbar_slot = match read_u8(data, &mut pos) {
            Some(v) => v,
            None => {
                return Err(PacketError::Truncated);
            },
        };
        Ok(BlockPickRequest { position, with_nbt, hotbar_slot })
    }
}

/// Type of animation to perform.
#[derive(Debug, Copy, Clone, PartialEq, Eq, Structural)]
pub enum AnimateAction {
    SwingArm,
    StopSleep,
    CriticalHit,
    MagicCriticalHit,
    RowRight,
    RowLeft,
}

impl AnimateAction {
    /// The numeric code each action travels as.
    pub open spec fn spec_code(self) -> i32 {
        match self {
            AnimateAction::SwingArm => 1,
            AnimateAction::StopSleep => 3,
            AnimateAction::CriticalHit => 4,
            AnimateAction::MagicCriticalHit => 5,
            AnimateAction::RowRight => 128,
            AnimateAction::RowLeft => 129,
        }
    }

    /// The action a numeric code names; none for any other value.
    pub open spec fn spec_from_code(value: i32) -> Option<AnimateAction> {
        if value == 1 {
            Some(AnimateAction::SwingArm)
        } else if value == 3 {
            Some(AnimateAction::StopSleep)
        } else if value == 4 {
            Some(AnimateAction::CriticalHit)
        } else if value == 5 {
            Some(AnimateAction::MagicCriticalHit)
        } else if value == 128 {
            Some(AnimateAction::RowRight)
        } else if value == 129 {
            Some(AnimateAction::RowLeft)
        } else {
            None
        }
    }

    /// Maps a numeric code to its action, rejecting exactly the unknown
    /// codes.
    pub fn try_from(value: i32) -> (r: Result<AnimateAction, PacketError>)
        ensures
            match AnimateAction::spec_from_code(value) {
                Some(a) => r == Result::<AnimateAction, PacketError>::Ok(a),
                None => r == Result::<AnimateAction, PacketError>::Err(PacketError::InvalidEnum),
            },
    {
        if value == 1 {
            Ok(AnimateAction::SwingArm)
        } else if value == 3 {
            Ok(AnimateAction::StopSleep)
        } else if value == 4 {
            Ok(AnimateAction::CriticalHit)
        } else if value == 5 {
            Ok(AnimateAction::MagicCriticalHit)
        } else if value == 128 {
            Ok(AnimateAction::RowRight)
        } else if value == 129 {
            Ok(AnimateAction::RowLeft)
        } else {
            Err(PacketError::InvalidEnum)
        }
    }

    /// Whether the action is one of the rowing pair: exactly the
    /// actions whose code carries the rowing bit.
    pub fn is_rowing(&self) -> (r: bool)
        ensures
            r == (self is RowRight || self is RowLeft),
            r == (self.spec_code() & 0x80 != 0),
    {
        proof {
            assert(1i32 & 0x80 == 0 && 3i32 & 0x80 == 0 && 4i32 & 0x80 == 0 && 5i32 & 0x80 == 0
                && 128i32 & 0x80 != 0 && 129i32 & 0x80 != 0) by (bit_vector);
        }
        match self {
            AnimateAction::RowRight => true,
            AnimateAction::RowLeft => true,
            _ => false,
        }
    }
}

/// Kind of reported protocol violation.
#[derive(Debug, Copy, Clone, PartialEq, Eq, Structural)]
pub enum ViolationType {
    Malformed,
}

impl ViolationType {
    /// The kind a numeric code names; none for any other value.
    pub open spec fn spec_from_code(value: i32) -> Option<ViolationType> {
        if value == 0 {
            Some(ViolationType::Malformed)
        } else {
            None
        }
    }

    /// Maps a numeric code to its kind, rejecting exactly the unknown
    /// codes.
    pub fn try_from(value: i32) -> (r: Result<ViolationType, PacketError>)
        ensures
            match ViolationType::spec_from_code(value) {
                Some(a) => r == Result::<ViolationType, PacketError>::Ok(a),
                None => r == Result::<ViolationType, PacketError>::Err(PacketError::InvalidEnum),
            },
    {
        if value == 0 {
            Ok(ViolationType::Malformed)
        } else {
            Err(PacketError::InvalidEnum)
        }
    }
}

/// Severity of a reported protocol violation.
#[derive(Debug, Copy, Clone, PartialEq, Eq, Structural)]
pub enum ViolationSeverity {
    Warning,
    FinalWarning,
    TerminatingConnection,
}

impl ViolationSeverity {
    /// The severity a numeric code names; none for any other value.
    pub open spec fn spec_from_code(value: i32) -> Option<ViolationSeverity> {
        if value == 0 {
            Some(ViolationSeverity::Warning)
        } else if value == 1 {
            Some(ViolationSeverity::FinalWarning)
        } else if value == 2 {
            Some(ViolationSeverity::TerminatingConnection)
        } else {
            None
        }
    }

    /// Maps a numeric code to its severity, rejecting exactly the
    /// unknown codes.
    pub fn try_from(value: i32) -> (r: Result<ViolationSeverity, PacketError>)
        ensures
            match ViolationSeverity::spec_from_code(value) {
                Some(a) => r == Result::<ViolationSeverity, PacketError>::Ok(a),
                None => r == Result::<ViolationSeverity, PacketError>::Err(
                    PacketError::InvalidEnum,
                ),
            },
    {
        if value == 0 {
            Ok(ViolationSeverity::Warning)
        } else if value == 1 {
            Ok(ViolationSeverity::FinalWarning)
        } else if value == 2 {
            Ok(ViolationSeverity::TerminatingConnection)
        } else {
            Err(PacketError::InvalidEnum)
        }
    }
}

/// A client-side report of a protocol violation by the server.
#[derive(Debug, Clone, PartialEq, Eq)]
pub struct ViolationWarning {
    /// Kind of the violation.
    pub warning_type: ViolationType,
    /// Severity of the violation.
    pub severity: ViolationSeverity,
    /// Id of the offending packet.
    pub packet_id: i32,
    /// Description of the violation, as the raw bytes received.
    pub context: Vec<u8>,
}

/// Reads a length-prefixed byte string.
pub open spec fn spec_read_string(d: Seq<u8>, i: int) -> Option<(Seq<u8>, int)> {
    match spec_read_var_u32(d, i, 0, 0) {
        None => None,
        Some((n, j)) => spec_read_bytes(d, j, n as int),
    }
}

/// Reads a length-prefixed byte string.
pub fn read_string(d: &[u8], pos: &mut usize) -> (r: Option<Vec<u8>>)
    ensures
        match spec_read_string(d@, *old(pos) as int) {
            Some((v, j)) => r is Some && r.unwrap()@ == v && *final(pos) == j,
            None => r is None,
        },
{
    let n = match read_var_u32(d, pos) {
        Some(v) => v,
        None => {
            return None;
        },
    };
    if n as usize > d.len() {
        return None;
    }
    read_bytes(d, pos, n as usize)
}

impl ViolationWarning {
    /// Wire id of this packet.
    pub const ID: u32 = 0x9c;

    /// Parses the report: kind, severity, packet id and description.
    pub fn deserialize(data: &[u8]) -> (r: Result<ViolationWarning, PacketError>)
        ensures
            match spec_read_var_u32(data@, 0, 0, 0) {
                None => r == Result::<ViolationWarning, PacketError>::Err(PacketError::Truncated),
                Some((zt, i1)) => match ViolationType::spec_from_code(unzigzag32(zt)) {
                    None => r == Result::<ViolationWarning, PacketError>::Err(
                        PacketError::InvalidEnum,
                    ),
                    Some(wt) => match spec_read_var_u32(data@, i1, 0, 0) {
                        None => r == Result::<ViolationWarning, PacketError>::Err(
                            PacketError::Truncated,
                        ),
                        Some((zs, i2)) => match ViolationSeverity::spec_from_code(unzigzag32(zs)) {
                            None => r == Result::<ViolationWarning, PacketError>::Err(
                                PacketError::InvalidEnum,
                            ),
                            Some(sv) => match spec_read_var_u32(data@, i2, 0, 0) {
                                None => r == Result::<ViolationWarning, PacketError>::Err(
                                    PacketError::Truncated,
                                ),
                                Some((zp, i3)) => match spec_read_string(data@, i3) {
                                    None => r == Result::<ViolationWarning, PacketError>::Err(
                                        PacketError::Truncated,
                                    ),
                                    Some((ctx, _)) => r is Ok && r.unwrap().warning_type == wt
                                        && r.unwrap().severity == sv && r.unwrap().packet_id
                                        == unzigzag32(zp) && r.unwrap().context@ == ctx,
                                },
                            },
                        },
                    },
                },
            },
    {
        let mut pos: usize = 0;
        let t = match read_var_i32(data, &mut pos) {
            Some(v) => v,
            None => {
                return Err(PacketError::Truncated);
            },
        };
        let warning_type = match ViolationType::try_from(t) {
            Ok(v) => v,
            Err(e) => {
                return Err(e);
            },
        };
        let sv = match read_var_i32(data, &mut pos) {
            Some(v) => v,
            None => {
                return Err(PacketError::Truncated);
            },
        };
        let severity = match ViolationSeverity::try_from(sv) {
            Ok(v) => v,
            Err(e) => {
                return Err(e);
            },
        };
        let packet_id = match read_var_i32(data, &mut pos) {
            Some(v) => v,
            None => {
                return Err(PacketError::Truncated);
            },
        };
        let context = match read_string(data, &mut pos) {
            Some(v) => v,
            None => {
                return Err(PacketError::Truncated);
            },
        };
        Ok(ViolationWarning { warning_type, severity, packet_id, context })
    }
}

/// What a debug renderer packet asks the client to do.
#[derive(Debug, Copy, Clone, PartialEq, Eq, Structural)]
pub enum DebugRendererAction {
    Clear,
    AddCube,
}

impl DebugRendererAction {
    /// The numeric code each action travels as.
    pub open spec fn spec_code(self) -> u32 {
        match self {
            DebugRendererAction::Clear => 1,
            DebugRendererAction::AddCube => 2,
        }
    }

    /// Executable twin of [`Self::spec_code`].
    pub fn code(self) -> (r: u32)
        ensures
            r == self.spec_code(),
    {
        match self {
            DebugRendererAction::Clear => 1,
            DebugRendererAction::AddCube => 2,
        }
    }
}

/// Drives the client's debug renderer.
#[derive(Debug, Clone, PartialEq, Eq)]
pub struct ClientBoundDebugRenderer<'a> {
    /// Action to perform.
    pub action: DebugRendererAction,
    /// Text shown above the rendered cube.
    pub text: &'a str,
    /// Position of the cube.
    pub position: Vector3f,
    /// Colour of the cube, each channel a unit-interval pattern.
    pub color: Vector4f,
    /// Lifetime of the cube in milliseconds.
    pub duration: i64,
}

impl<'a> ClientBoundDebugRenderer<'a> {
    /// Wire id of this packet.
    pub const ID: u32 = 0xa4;

    /// The encoded packet: the action code, and for a cube also the
    /// text, position, colour and duration.
    pub open spec fn spec_serialized(self) -> Seq<u8> {
        u32_le_bytes(self.action.spec_code()) + if self.action == DebugRendererAction::AddCube {
            string_bytes(self.text.spec_bytes()) + spec_vec3f_bytes(self.position)
                + spec_vec4f_bytes(self.color) + u64_le_bytes(self.duration as u64)
        } else {
            Seq::<u8>::empty()
        }
    }

    /// Number of bytes the encoded packet occupies.
    pub fn serialized_size(&self) -> (r: usize)
        requires
            self.text.spec_bytes().len() <= 0xffff,
        ensures
            r == self.spec_serialized().len(),
    {
        let mut n: usize = 4;
        if matches!(self.action, DebugRendererAction::AddCube) {
            let tl = self.text.as_bytes().len();
            proof {
                lemma_var_u32_len(tl as u32);
            }
            n = n + var_u32_size(tl as u32) + tl + 12 + 16 + 8;
        }
        n
    }

    /// Appends the encoded packet.
    pub fn serialize(&self, buffer: &mut Vec<u8>)
        requires
            self.text.spec_bytes().len() <= 0xffff,
            self.text@.len() <= 0xffff,
        ensures
            final(buffer)@ == old(buffer)@ + self.spec_serialized(),
    {
        put_u32_le(buffer, self.action.code());
        if matches!(self.action, DebugRendererAction::AddCube) {
            put_string(buffer, self.text);
            put_vec3f(buffer, &self.position);
            put_vec4f(buffer, &self.color);
            put_u64_le(buffer, self.duration as u64);
        }
        assert(buffer@ =~= old(buffer)@ + self.spec_serialized());
    }
}

/// One blob of the chunk cache, sent when the client misses it.
#[derive(Debug, Clone, PartialEq, Eq)]
pub struct CacheBlob {
    /// Hash the client asked for.
    pub hash: u64,
    /// The blob's bytes.
    pub payload: Vec<u8>,
}

impl CacheBlob {
    /// The encoded blob: its hash, then its length-prefixed bytes.
    pub open spec fn spec_serialized(self) -> Seq<u8> {
        u64_le_bytes(self.hash) + var_u32_bytes(self.payload@.len() as u32) + self.payload@
    }

    /// Number of bytes the encoded blob occupies.
    pub fn len(&self) -> (r: usize)
        requires
            self.payload@.len() <= 0xffff_ffff,
            self.payload@.len() + 13 <= usize::MAX,
        ensures
            r == self.spec_serialized().len(),
    {
        proof {
            lemma_var_u32_len(self.payload@.len() as u32);
        }
        8 + var_u32_size(self.payload.len() as u32) + self.payload.len()
    }

    /// Appends the encoded blob.
    pub fn serialize(&self, buffer: &mut Vec<u8>)
        requires
            self.payload@.len() <= 0xffff_ffff,
        ensures
            final(buffer)@ == old(buffer)@ + self.spec_serialized(),
    {
        put_u64_le(buffer, self.hash);
        put_var_u32(buffer, self.payload.len() as u32);
        put_bytes(buffer, self.payload.as_slice());
        assert(buffer@ =~= old(buffer)@ + self.spec_serialized());
    }
}

/// Answer to a cache miss: the blobs the client lacked.
#[derive(Debug, Clone, PartialEq, Eq)]
pub struct CacheMissResponse<'a> {
    /// Blobs to deliver.
    pub blobs: &'a [CacheBlob],
}

/// The encoded blob list.
pub open spec fn spec_blobs_bytes(bs: Seq<CacheBlob>) -> Seq<u8>
    decreases bs.len(),
{
    if bs.len() == 0 {
        Seq::<u8>::empty()
    } else {
        bs[0].spec_serialized() + spec_blobs_bytes(bs.drop_first())
    }
}

/// Appending one blob appends its encoding.
proof fn lemma_blobs_snoc(bs: Seq<CacheBlob>, b: CacheBlob)
    ensures
        spec_blobs_bytes(bs.push(b)) == spec_blobs_bytes(bs) + b.spec_serialized(),
    decreases bs.len(),
{
    if bs.len() == 0 {
        assert(bs.push(b)[0] == b);
        assert(bs.push(b).drop_first() =~= Seq::<CacheBlob>::empty());
        assert(spec_blobs_bytes(Seq::<CacheBlob>::empty()) == Seq::<u8>::empty());
        assert(spec_blobs_bytes(bs.push(b)) =~= spec_blobs_bytes(bs) + b.spec_serialized());
    } else {
        assert(bs.push(b).drop_first() =~= bs.drop_first().push(b));
        lemma_blobs_snoc(bs.drop_first(), b);
        assert(spec_blobs_bytes(bs.push(b)) =~= spec_blobs_bytes(bs) + b.spec_serialized());
    }
}

impl<'a> CacheMissResponse<'a> {
    /// Wire id of this packet.
    pub const ID: u32 = 0x88;

    /// The encoded packet: the blob count, then the blobs.
    pub open spec fn spec_serialized(self) -> Seq<u8> {
        var_u32_bytes(self.blobs@.len() as u32) + spec_blobs_bytes(self.blobs@)
    }

    /// Appends the encoded packet.
    pub fn serialize(&self, buffer: &mut Vec<u8>)
        requires
            self.blobs@.len() <= 0xffff,
            forall|i: int|
                0 <= i < self.blobs@.len() ==> (#[trigger] self.blobs@[i]).payload@.len()
                    <= 0xffff_ffff,
        ensures
            final(buffer)@ == old(buffer)@ + self.spec_serialized(),
    {
        put_var_u32(buffer, self.blobs.len() as u32);
        let ghost header = buffer@;
        let mut i: usize = 0;
        while i < self.blobs.len()
            invariant
                i <= self.blobs@.len(),
                forall|k: int|
                    0 <= k < self.blobs@.len() ==> (#[trigger] self.blobs@[k]).payload@.len()
                        <= 0xffff_ffff,
                buffer@ == header + spec_blobs_bytes(self.blobs@.subrange(0, i as int)),
            decreases self.blobs@.len() - i,
        {
            let ghost sub = self.blobs@.subrange(0, i as int);
            self.blobs[i].serialize(buffer);
            i = i + 1;
            proof {
                lemma_blobs_snoc(sub, self.blobs@[i - 1]);
                assert(self.blobs@.subrange(0, i as int) =~= sub.push(self.blobs@[i - 1]));
            }
        }
        proof {
            assert(self.blobs@.subrange(0, self.blobs@.len() as int) =~= self.blobs@);
        }
    }
}

/// The biome catalogue, sent to the client once; the catalogue bytes
/// come from the server's data files and pass through unread.
#[derive(Debug, Clone, PartialEq, Eq)]
pub struct BiomeDefinitionList {
    /// The encoded catalogue.
    pub definitions: Vec<u8>,
}

impl BiomeDefinitionList {
    /// Wire id of this packet.
    pub const ID: u32 = 0x7a;

    /// Number of bytes the encoded packet occupies.
    pub fn serialized_size(&self) -> (r: usize)
        ensures
            r == self.definitions@.len(),
    {
        self.definitions.len()
    }

    /// Appends the catalogue bytes unchanged.
    pub fn serialize(&self, buffer: &mut Vec<u8>)
        ensures
            final(buffer)@ == old(buffer)@ + self.definitions@,
    {
        put_bytes(buffer, self.definitions.as_slice());
    }
}

/// Type of a link between two entities.
#[derive(Debug, Copy, Clone, PartialEq, Eq, Structural)]
pub enum EntityLinkType {
    /// Removes the link between the two entities.
    Remove,
    /// Link for an entity that controls what it rides.
    Rider,
    /// Link for a passenger.
    Passenger,
}

impl EntityLinkType {
    /// The numeric code each link type travels as.
    pub open spec fn spec_code(self) -> u8 {
        match self {
            EntityLinkType::Remove => 0,
            EntityLinkType::Rider => 1,
            EntityLinkType::Passenger => 2,
        }
    }

    /// Executable twin of [`Self::spec_code`].
    pub fn code(self) -> (r: u8)
        ensures
            r == self.spec_code(),
    {
        match self {
            EntityLinkType::Remove => 0,
            EntityLinkType::Rider => 1,
            EntityLinkType::Passenger => 2,
        }
    }
}

/// Links two entities, as when a player rides a horse.
#[derive(Debug, Copy, Clone, PartialEq, Eq, Structural)]
pub struct EntityLink {
    /// Type of the link.
    pub link_type: EntityLinkType,
    /// Unique id of the ridden entity.
    pub ridden_entity_id: i64,
    /// Unique id of the rider.
    pub rider_entity_id: i64,
    /// Whether to unlink immediately, as on the death of a mount.
    pub is_immediate: bool,
    /// Whether the rider initiated the link.
    pub is_rider_initiated: bool,
}

impl EntityLink {
    /// The encoded link: both ids, the type code and the two flags.
    pub open spec fn spec_encoded(self) -> Seq<u8> {
        var_u64_bytes(zigzag64(self.ridden_entity_id)) + var_u64_bytes(
            zigzag64(self.rider_entity_id),
        ) + seq![self.link_type.spec_code(), if self.is_immediate {
            1u8
        } else {
            0u8
        }, if self.is_rider_initiated {
            1u8
        } else {
            0u8
        }]
    }

    /// Appends the encoded link.
    pub fn encode(&self, buffer: &mut Vec<u8>)
        ensures
            final(buffer)@ == old(buffer)@ + self.spec_encoded(),
    {
        put_var_i64(buffer, self.ridden_entity_id);
        put_var_i64(buffer, self.rider_entity_id);
        put_u8(buffer, self.link_type.code());
        put_bool(buffer, self.is_immediate);
        put_bool(buffer, self.is_rider_initiated);
        assert(buffer@ =~= old(buffer)@ + self.spec_encoded());
    }
}

/// The player abilities, one bit each.
#[derive(Debug, Copy, Clone, PartialEq, Eq, Structural)]
pub enum Ability {
    Build,
    Mine,
    DoorsAndSwitches,
    OpenContainers,
    AttackPlayers,
    AttackMobs,
    OperatorCommands,
    Teleport,
    Invulnerable,
    Flying,
    MayFly,
    InstantBuild,
    Lightning,
    FlySpeed,
    WalkSpeed,
    Muted,
    WorldBuilder,
    NoClip,
    Count,
}

impl Ability {
    /// The bit each ability occupies in an ability mask.
    pub open spec fn spec_bit(self) -> u32 {
        match self {
            Ability::Build => 0x1,
            Ability::Mine => 0x2,
            Ability::DoorsAndSwitches => 0x4,
            Ability::OpenContainers => 0x8,
            Ability::AttackPlayers => 0x10,
            Ability::AttackMobs => 0x20,
            Ability::OperatorCommands => 0x40,
            Ability::Teleport => 0x80,
            Ability::Invulnerable => 0x100,
            Ability::Flying => 0x200,
            Ability::MayFly => 0x400,
            Ability::InstantBuild => 0x800,
            Ability::Lightning => 0x1000,
            Ability::FlySpeed => 0x2000,
            Ability::WalkSpeed => 0x4000,
            Ability::Muted => 0x8000,
            Ability::WorldBuilder => 0x10000,
            Ability::NoClip => 0x20000,
            Ability::Count => 0x40000,
        }
    }

    /// Executable twin of [`Self::spec_bit`].
    pub fn bit(self) -> (r: u32)
        ensures
            r == self.spec_bit(),
    {
        match self {
            Ability::Build => 0x1,
            Ability::Mine => 0x2,
            Ability::DoorsAndSwitches => 0x4,
            Ability::OpenContainers => 0x8,
            Ability::AttackPlayers => 0x10,
            Ability::AttackMobs => 0x20,
            Ability::OperatorCommands => 0x40,
            Ability::Teleport => 0x80,
            Ability::Invulnerable => 0x100,
            Ability::Flying => 0x200,
            Ability::MayFly => 0x400,
            Ability::InstantBuild => 0x800,
            Ability::Lightning => 0x1000,
            Ability::FlySpeed => 0x2000,
            Ability::WalkSpeed => 0x4000,
            Ability::Muted => 0x8000,
            Ability::WorldBuilder => 0x10000,
            Ability::NoClip => 0x20000,
            Ability::Count => 0x40000,
        }
    }
}

/// Kind of an ability layer.
#[derive(Debug, Copy, Clone, PartialEq, Eq, Structural)]
pub enum AbilityType {
    CustomCache,
    Base,
    Spectator,
    Commands,
    Editor,
}

impl AbilityType {
    /// The numeric code each layer kind travels as.
    pub open spec fn spec_code(self) -> u16 {
        match self {
            AbilityType::CustomCache => 0,
            AbilityType::Base => 1,
            AbilityType::Spectator => 2,
            AbilityType::Commands => 3,
            AbilityType::Editor => 4,
        }
    }

    /// Executable twin of [`Self::spec_code`].
    pub fn code(self) -> (r: u16)
        ensures
            r == self.spec_code(),
    {
        match self {
            AbilityType::CustomCache => 0,
            AbilityType::Base => 1,
            AbilityType::Spectator => 2,
            AbilityType::Commands => 3,
            AbilityType::Editor => 4,
        }
    }
}

} // verus!
