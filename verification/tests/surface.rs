//! The packet catalogue and the entity registry.

use raknet_core::ecs::ComponentStorage;
use raknet_core::ecs::Entities;
use raknet_core::ecs::StorageQuery;
use raknet_core::ecs::World;
use raknet_core::packets::command::AvailableCommands;
use raknet_core::packets::command::Command;
use raknet_core::packets::command::CommandDataType;
use raknet_core::packets::command::CommandEnum;
use raknet_core::packets::command::CommandOverload;
use raknet_core::packets::command::CommandParameter;
use raknet_core::packets::command::CommandPermissionLevel;
use raknet_core::packets::control::Addr;
use raknet_core::packets::control::OfflinePing;
use raknet_core::packets::control::OfflinePong;
use raknet_core::packets::control::OnlinePong;
use raknet_core::packets::control::OpenConnectionReply1;
use raknet_core::packets::control::OpenConnectionReply2;
use raknet_core::packets::control::UnconnectedPong;
use raknet_core::packets::game::AnimateAction;
use raknet_core::packets::game::BiomeDefinitionList;
use raknet_core::packets::game::BlockPickRequest;
use raknet_core::packets::game::CacheBlob;
use raknet_core::packets::game::CacheMissResponse;
use raknet_core::packets::game::ClientBoundDebugRenderer;
use raknet_core::packets::game::ContainerClose;
use raknet_core::packets::game::DebugRendererAction;
use raknet_core::packets::game::EntityLink;
use raknet_core::packets::game::EntityLinkType;
use raknet_core::packets::game::GameMode;
use raknet_core::packets::game::PacketError;
use raknet_core::packets::game::Respawn;
use raknet_core::packets::game::RespawnState;
use raknet_core::packets::game::SetCommandsEnabled;
use raknet_core::packets::game::SetPlayerGameMode;
use raknet_core::packets::game::Vector3f;
use raknet_core::packets::game::Vector4f;
use raknet_core::packets::game::ViolationSeverity;
use raknet_core::packets::game::ViolationType;
use raknet_core::packets::game::ViolationWarning;
use raknet_core::packets::game::read_string;
use raknet_core::wire::read_u16_le;
use raknet_core::wire::read_u32_le;
use raknet_core::wire::read_u8;
use raknet_core::wire::read_var_u32;
use raknet_core::packets::login::BehaviorPack;
use raknet_core::packets::login::ClientToServerHandshake;
use raknet_core::packets::login::DeviceOS;
use raknet_core::packets::login::ResourcePack;
use raknet_core::packets::login::ResourcePacksInfo;
use raknet_core::packets::login::UiProfile;

#[test]
fn game_mode_codes() {
    assert_eq!(GameMode::try_from(0).unwrap(), GameMode::Survival);
    assert_eq!(GameMode::try_from(5).unwrap(), GameMode::WorldDefault);
    assert_eq!(GameMode::try_from(4), Err(PacketError::InvalidEnum));
    assert_eq!(GameMode::Adventure.code(), 2);
}

#[test]
fn set_player_game_mode_round_trip() {
    let packet = SetPlayerGameMode { game_mode: GameMode::Creative };
    let mut buffer: Vec<u8> = Vec::new();
    packet.serialize(&mut buffer);
    assert_eq!(buffer.len(), packet.serialized_size());
    assert_eq!(SetPlayerGameMode::deserialize(&buffer[..]).unwrap(), packet);
    assert_eq!(
        SetPlayerGameMode::deserialize(&[][..]),
        Err(PacketError::Truncated)
    );
}

#[test]
fn respawn_serializes_exactly() {
    let packet = Respawn {
        position: Vector3f { x: 1, y: 2, z: 3 },
        state: RespawnState::ServerReady,
        runtime_id: 77,
    };
    let mut buffer: Vec<u8> = Vec::new();
    packet.serialize(&mut buffer);
    assert_eq!(buffer.len(), packet.serialized_size());
    assert_eq!(buffer.len(), 12 + 1 + 1);
    assert_eq!(buffer[12], 1);
    assert_eq!(buffer[13], 77);
    assert_eq!(RespawnState::try_from(9), Err(PacketError::InvalidEnum));
}

#[test]
fn container_close_bytes() {
    let packet = ContainerClose { window_id: 3, server_initiated: true };
    let mut buffer: Vec<u8> = Vec::new();
    packet.serialize(&mut buffer);
    assert_eq!(buffer, vec![3u8, 1]);
    assert_eq!(packet.serialized_size(), 2);
}

#[test]
fn set_commands_enabled_bytes() {
    let packet = SetCommandsEnabled { enabled: false };
    let mut buffer: Vec<u8> = Vec::new();
    packet.serialize(&mut buffer);
    assert_eq!(buffer, vec![0u8]);
    assert_eq!(packet.serialized_size(), 1);
}

#[test]
fn block_pick_request_parses() {
    // Zigzag groups for x = -1, y = 2, z = -3, then flag and slot.
    let data = [1u8, 4, 5, 1, 9];
    let packet = BlockPickRequest::deserialize(&data[..]).unwrap();
    assert_eq!(packet.position.x, -1);
    assert_eq!(packet.position.y, 2);
    assert_eq!(packet.position.z, -3);
    assert!(packet.with_nbt);
    assert_eq!(packet.hotbar_slot, 9);
    assert_eq!(BlockPickRequest::deserialize(&[1u8][..]), Err(PacketError::Truncated));
}

#[test]
fn violation_warning_parses() {
    let mut data: Vec<u8> = Vec::new();
    data.push(0); // kind
    data.push(2); // severity one, zigzag mapped
    data.push(8); // packet id four, zigzag mapped
    data.push(2); // description length
    data.extend_from_slice(b"hi");
    let packet = ViolationWarning::deserialize(&data[..]).unwrap();
    assert_eq!(packet.warning_type, ViolationType::Malformed);
    assert_eq!(packet.severity, ViolationSeverity::FinalWarning);
    assert_eq!(packet.packet_id, 4);
    assert_eq!(packet.context, b"hi".to_vec());
    assert_eq!(ViolationWarning::deserialize(&[9u8][..]), Err(PacketError::InvalidEnum));
}

#[test]
fn animate_action_codes() {
    assert!(AnimateAction::try_from(128).unwrap().is_rowing());
    assert!(AnimateAction::try_from(129).unwrap().is_rowing());
    assert!(!AnimateAction::try_from(1).unwrap().is_rowing());
    assert_eq!(AnimateAction::try_from(2), Err(PacketError::InvalidEnum));
}

#[test]
fn debug_renderer_cube_layout() {
    let packet = ClientBoundDebugRenderer {
        action: DebugRendererAction::AddCube,
        text: "hi",
        position: Vector3f { x: 0, y: 0, z: 0 },
        color: Vector4f { x: 0, y: 0, z: 0, w: 0 },
        duration: 1000,
    };
    let mut buffer: Vec<u8> = Vec::new();
    packet.serialize(&mut buffer);
    assert_eq!(buffer.len(), packet.serialized_size());
    assert_eq!(buffer.len(), 4 + 1 + 2 + 12 + 16 + 8);
    let clear = ClientBoundDebugRenderer { action: DebugRendererAction::Clear, ..packet };
    let mut buffer2: Vec<u8> = Vec::new();
    clear.serialize(&mut buffer2);
    assert_eq!(buffer2.len(), 4);
}

#[test]
fn cache_miss_response_layout() {
    let blobs = vec![CacheBlob { hash: 5, payload: b"zz".to_vec() }];
    let packet = CacheMissResponse { blobs: &blobs[..] };
    let mut buffer: Vec<u8> = Vec::new();
    packet.serialize(&mut buffer);
    assert_eq!(buffer.len(), 1 + blobs[0].len());
    assert_eq!(buffer[0], 1);
}

#[test]
fn biome_definitions_pass_through() {
    let packet = BiomeDefinitionList { definitions: b"catalogue".to_vec() };
    let mut buffer: Vec<u8> = Vec::new();
    packet.serialize(&mut buffer);
    assert_eq!(buffer, b"catalogue".to_vec());
    assert_eq!(packet.serialized_size(), 9);
}

#[test]
fn entity_link_bytes() {
    let link = EntityLink {
        link_type: EntityLinkType::Rider,
        ridden_entity_id: 1,
        rider_entity_id: 2,
        is_immediate: false,
        is_rider_initiated: true,
    };
    let mut buffer: Vec<u8> = Vec::new();
    link.encode(&mut buffer);
    assert_eq!(buffer, vec![2u8, 4, 1, 0, 1]);
}

#[test]
fn offline_ping_pong() {
    let mut data: Vec<u8> = vec![0x01];
    data.extend_from_slice(&[0, 0, 0, 0, 0, 0, 0, 42]); // time
    data.extend_from_slice(&[0u8; 16]); // magic
    data.extend_from_slice(&[0, 0, 0, 0, 0, 0, 0, 9]); // client id
    let ping = OfflinePing::decode(&data[..]).unwrap();
    assert_eq!(ping.time, 42);
    assert_eq!(ping.client_guid, 9);
    assert!(OfflinePing::decode(&data[..5]).is_none());

    let pong = OfflinePong { time: 42, server_guid: 7, metadata: String::from("MOTD") };
    let encoded = pong.encode();
    assert_eq!(encoded.len(), 1 + 8 + 8 + 16 + 2 + 4);
    assert_eq!(encoded[0], 0x1c);
}

#[test]
fn online_pong_layout() {
    let pong = OnlinePong { ping_time: 1, pong_time: 2 };
    let encoded = pong.encode();
    assert_eq!(encoded.len(), 17);
    assert_eq!(encoded[0], 0x03);
    assert_eq!(encoded[8], 1);
    assert_eq!(encoded[16], 2);
}

#[test]
fn unconnected_pong_layout() {
    let pong = UnconnectedPong { time: 5, server_guid: 6, metadata: "abc" };
    let mut buffer: Vec<u8> = Vec::new();
    pong.serialize(&mut buffer);
    assert_eq!(buffer.len(), pong.serialized_size());
    assert_eq!(buffer.len(), 1 + 8 + 8 + 16 + 2 + 3);
}

#[test]
fn open_connection_replies_layout() {
    let first = OpenConnectionReply1 { server_guid: 1, mtu: 1400 };
    let mut buffer: Vec<u8> = Vec::new();
    first.serialize(&mut buffer);
    assert_eq!(buffer.len(), first.serialized_size());
    assert_eq!(buffer.len(), 28);

    let second = OpenConnectionReply2 {
        server_guid: 1,
        client_address: Addr::V4 { a: 127, b: 0, c: 0, d: 1, port: 19132 },
        mtu: 1400,
    };
    let mut buffer2: Vec<u8> = Vec::new();
    second.serialize(&mut buffer2);
    assert_eq!(buffer2.len(), second.serialized_size());
    // The version-four address is ones-complemented on the wire.
    assert_eq!(buffer2[26], !127u8);
    // Port 19132 in big-endian order.
    assert_eq!(buffer2[30], 0x4a);
    assert_eq!(buffer2[31], 0xbc);

    let six = OpenConnectionReply2 {
        server_guid: 1,
        client_address: Addr::V6 { groups: [0, 0, 0, 0, 0, 0, 0, 1], port: 19133 },
        mtu: 1400,
    };
    let mut buffer3: Vec<u8> = Vec::new();
    six.serialize(&mut buffer3);
    assert_eq!(buffer3.len(), six.serialized_size());
}

#[test]
fn handshake_and_login_enums() {
    let _ = ClientToServerHandshake::deserialize(&[][..]);
    assert_eq!(DeviceOS::Win10.code(), 6);
    assert_eq!(UiProfile::Pocket.code(), 1);
}

#[test]
fn resource_packs_info_layout() {
    let behavior = vec![BehaviorPack {
        uuid: String::from("b-1"),
        version: String::from("1.0"),
        size: 10,
        content_key: String::new(),
        subpack_name: String::new(),
        content_identity: String::new(),
        has_scripts: false,
    }];
    let resource = vec![ResourcePack {
        uuid: String::from("r-1"),
        version: String::from("2.0"),
        size: 20,
        content_key: String::new(),
        subpack_name: String::new(),
        content_identity: String::new(),
        has_scripts: false,
        rtx_enabled: true,
    }];
    let packet = ResourcePacksInfo {
        required: true,
        scripting_enabled: false,
        forcing_server_packs: false,
        behavior_info: &behavior[..],
        resource_info: &resource[..],
    };
    let mut buffer: Vec<u8> = Vec::new();
    packet.serialize(&mut buffer);
    assert_eq!(buffer.len(), packet.serialized_size());
    assert_eq!(buffer[0], 1);
}

#[test]
fn available_commands_serializes() {
    let command = Command {
        name: String::from("gamerule"),
        description: String::from("Sets or queries a game rule value."),
        permission_level: CommandPermissionLevel::Normal,
        aliases: vec![String::from("gr")],
        overloads: vec![CommandOverload {
            parameters: vec![CommandParameter {
                data_type: CommandDataType::String,
                name: String::from("rule"),
                suffix: String::new(),
                command_enum: Some(CommandEnum {
                    enum_id: String::from("boolean"),
                    options: vec![String::from("true"), String::from("false")],
                    dynamic: false,
                }),
                optional: false,
                options: 0,
            }],
        }],
    };
    let commands = vec![command];
    let packet = AvailableCommands { commands: &commands[..] };
    assert_eq!(packet.serialized_size(), 0);
    let mut buffer: Vec<u8> = Vec::new();
    packet.serialize(&mut buffer);

    // Walk the catalogue structurally.
    let d = &buffer[..];
    let mut pos = 0;
    // Shared values: the alias first, then the enumeration options.
    assert_eq!(read_var_u32(d, &mut pos).unwrap(), 3);
    assert_eq!(read_string(d, &mut pos).unwrap(), b"gr".to_vec());
    assert_eq!(read_string(d, &mut pos).unwrap(), b"true".to_vec());
    assert_eq!(read_string(d, &mut pos).unwrap(), b"false".to_vec());
    // No suffixes.
    assert_eq!(read_var_u32(d, &mut pos).unwrap(), 0);
    // Two fixed enumerations: the alias enumeration, then the values.
    assert_eq!(read_var_u32(d, &mut pos).unwrap(), 2);
    assert_eq!(read_string(d, &mut pos).unwrap(), b"gameruleAliases".to_vec());
    assert_eq!(read_var_u32(d, &mut pos).unwrap(), 1);
    assert_eq!(read_u8(d, &mut pos).unwrap(), 0); // index of "gr"
    assert_eq!(read_string(d, &mut pos).unwrap(), b"boolean".to_vec());
    assert_eq!(read_var_u32(d, &mut pos).unwrap(), 2);
    assert_eq!(read_u8(d, &mut pos).unwrap(), 1); // index of "true"
    assert_eq!(read_u8(d, &mut pos).unwrap(), 2); // index of "false"
    // One command record.
    assert_eq!(read_var_u32(d, &mut pos).unwrap(), 1);
    assert_eq!(read_string(d, &mut pos).unwrap(), b"gamerule".to_vec());
    assert_eq!(
        read_string(d, &mut pos).unwrap(),
        b"Sets or queries a game rule value.".to_vec()
    );
    assert_eq!(read_u16_le(d, &mut pos).unwrap(), 0); // flags
    assert_eq!(read_u8(d, &mut pos).unwrap(), 0); // permission level
    assert_eq!(read_u32_le(d, &mut pos).unwrap(), 0); // alias enum index
    assert_eq!(read_var_u32(d, &mut pos).unwrap(), 1); // overloads
    assert_eq!(read_var_u32(d, &mut pos).unwrap(), 1); // parameters
    assert_eq!(read_string(d, &mut pos).unwrap(), b"rule".to_vec());
    // Enum-typed parameter: soft flags plus the enumeration index.
    assert_eq!(read_u32_le(d, &mut pos).unwrap(), 0x200000 | 0x100000 | 1);
    assert_eq!(read_u8(d, &mut pos).unwrap(), 0); // optional
    assert_eq!(read_u8(d, &mut pos).unwrap(), 0); // option flags
    // No dynamic enumerations, no constraints, nothing after.
    assert_eq!(read_var_u32(d, &mut pos).unwrap(), 0);
    assert_eq!(read_var_u32(d, &mut pos).unwrap(), 0);
    assert_eq!(pos, buffer.len());
}

#[test]
fn respawn_parses_back() {
    let packet = Respawn {
        position: Vector3f { x: 7, y: 8, z: 9 },
        state: RespawnState::ClientReady,
        runtime_id: 300,
    };
    let mut buffer: Vec<u8> = Vec::new();
    packet.serialize(&mut buffer);
    assert_eq!(Respawn::deserialize(&buffer[..]).unwrap(), packet);
    assert_eq!(Respawn::deserialize(&buffer[..3]), Err(PacketError::Truncated));
    let mut bad = buffer.clone();
    bad[12] = 9;
    assert_eq!(Respawn::deserialize(&bad[..]), Err(PacketError::InvalidEnum));
}

#[test]
fn component_storage_deregister_frees() {
    struct Tag(u8);
    impl raknet_core::ecs::Component for Tag {}

    let mut world = World::new();
    let a = world.spawn_empty().id();
    let mut storage: ComponentStorage<Tag> = ComponentStorage::new();
    storage.register(a, Tag(1));
    assert_eq!(storage.query(a).map(|t| t.0), Some(1));
    storage.deregister(a);
    assert!(storage.query(a).is_none());
    // A reused entity id starts clean.
    world.despawn(a);
    let b = world.spawn_empty().id();
    assert_eq!(a, b);
    assert!(storage.query(b).is_none());
    storage.register(b, Tag(2));
    assert_eq!(storage.query(b).map(|t| t.0), Some(2));
}

#[test]
fn entity_arena_reuses_slots() {
    let mut entities = Entities::new();
    let first = entities.register();
    let second = entities.register();
    assert_ne!(first, second);
    entities.deregister(first);
    // Deregistering an already-freed slot is harmless.
    entities.deregister(first);
    let third = entities.register();
    // The freed slot is reused before the arena grows.
    assert_eq!(first, third);

    let mut iter = entities.iter();
    let mut seen = 0;
    while let Some(_) = iter.next() {
        seen += 1;
    }
    assert_eq!(seen, 2);
}

#[test]
fn component_storage_register_and_query() {
    struct Health(u32);
    impl raknet_core::ecs::Component for Health {}

    let mut world = World::new();
    let player = world.spawn_empty().id();
    let mob = world.spawn_empty().id();

    let mut storage: ComponentStorage<Health> = ComponentStorage::new();
    storage.register(player, Health(20));
    assert!(storage.query(player).is_some());
    assert!(storage.query(mob).is_none());
    assert_eq!(storage.query_one(player).map(|h| h.0), Some(20));

    world.despawn(mob);
}
