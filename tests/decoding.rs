use tf_demo_core::analyser::{
    ChatMassage, ChatMessageKind, Class, ClassList, Death, PlayerDeathEvent, PlayerSpawnEvent,
    SayText2Message, Spawn, Team, UserId,
};
use tf_demo_core::bits::{read_bit_var, GameEventError, ParseError, Stream};
use tf_demo_core::gameevent::{
    GameEventDefinition, GameEventEntry, GameEventListMessage, GameEventMessage, GameEventTypeId,
    GameEventValue, GameEventValueType,
};
use tf_demo_core::packetentities::{
    EntityId, PVS, PacketEntitiesMessage, PacketEntity,
};
use tf_demo_core::sendprop::{
    count_bits, FloatValue, SendProp, SendPropDefinition, SendPropKind, SendPropValue, SendTable,
    FLAG_COORD, FLAG_NO_SCALE, FLAG_UNSIGNED,
};
use tf_demo_core::state::{ParserState, ServerClass};

/// Packs little-endian fields of the given widths into bytes.
fn pack(fields: &[(u64, usize)]) -> Vec<u8> {
    let mut bits: Vec<bool> = Vec::new();
    for &(value, width) in fields {
        for i in 0..width {
            bits.push((value >> i) & 1 == 1);
        }
    }
    let mut bytes = vec![0u8; (bits.len() + 7) / 8];
    for (i, b) in bits.iter().enumerate() {
        if *b {
            bytes[i / 8] |= 1 << (i % 8);
        }
    }
    bytes
}

fn cstring(s: &str) -> Vec<(u64, usize)> {
    let mut out: Vec<(u64, usize)> = s.bytes().map(|b| (b as u64, 8)).collect();
    out.push((0, 8));
    out
}

fn bit_len(fields: &[(u64, usize)]) -> u64 {
    fields.iter().map(|f| f.1 as u64).sum()
}

fn int_def(name: &str, bits: u32) -> SendPropDefinition {
    SendPropDefinition {
        owner_table: "DT_Test".to_string(),
        name: name.to_string(),
        kind: SendPropKind::Int,
        flags: FLAG_UNSIGNED,
        bit_count: bits,
        low_value: 0,
        high_value: 0,
        element_count: 0,
        array_element: None,
    }
}

fn float_def(name: &str) -> SendPropDefinition {
    SendPropDefinition {
        owner_table: "DT_Test".to_string(),
        name: name.to_string(),
        kind: SendPropKind::Float,
        flags: FLAG_NO_SCALE,
        bit_count: 32,
        low_value: 0,
        high_value: 0,
        element_count: 0,
        array_element: None,
    }
}

fn class_c() -> ServerClass {
    ServerClass { id: 0, name: "CTest".to_string(), data_table: "DT_Test".to_string() }
}

fn state_with_table(props: Vec<SendPropDefinition>) -> ParserState {
    let mut state = ParserState::new();
    state.send_tables.push(SendTable { name: "DT_Test".to_string(), flattened_props: props });
    state.server_classes.push(class_c());
    state
}

/// Header of a packet-entities message followed by its body.
fn entities_message(delta: Option<u32>, base_line: u64, updated: u64, updated_base_line: bool, body: &[(u64, usize)]) -> Vec<u8> {
    let mut fields: Vec<(u64, usize)> = vec![(64, 11)];
    match delta {
        Some(d) => {
            fields.push((1, 1));
            fields.push((d as u64, 32));
        }
        None => fields.push((0, 1)),
    }
    fields.push((base_line, 1));
    fields.push((updated, 11));
    fields.push((bit_len(body), 20));
    fields.push((updated_base_line as u64, 1));
    fields.extend_from_slice(body);
    pack(&fields)
}

#[test]
fn empty_event_list() {
    let mut s = Stream::from_bytes(pack(&[(0, 9), (0, 20), (5, 3)]));
    let list = GameEventListMessage::read(&mut s).unwrap();
    assert!(list.event_list.is_empty());
    assert_eq!(s.read_sized(3).ok(), Some(5));
}

#[test]
fn single_event_one_string_entry() {
    let mut def_fields: Vec<(u64, usize)> = vec![(7, 9)];
    def_fields.extend(cstring("round_start"));
    def_fields.push((5, 3));
    def_fields.extend(cstring("reason"));
    def_fields.push((0, 3));
    let mut fields: Vec<(u64, usize)> = vec![(1, 9), (bit_len(&def_fields), 20)];
    fields.extend(def_fields);
    let mut s = Stream::from_bytes(pack(&fields));
    let list = GameEventListMessage::read(&mut s).unwrap();
    assert_eq!(list.event_list.len(), 1);
    let def = &list.event_list[0];
    assert_eq!(def.id, GameEventTypeId(7));
    assert_eq!(def.name, "round_start");
    assert_eq!(def.entries.len(), 1);
    assert_eq!(def.entries[0].name, "reason");
    assert_eq!(def.entries[0].kind, GameEventValueType::Byte);

    let mut state = ParserState::new();
    for i in 0..8u16 {
        state.event_definitions.push(GameEventDefinition { id: GameEventTypeId(i), name: format!("e{}", i), entries: vec![] });
    }
    state.event_definitions[7] = list.event_list.into_iter().next().unwrap();
    let mut s = Stream::from_bytes(pack(&[(18, 11), (7, 9), (3, 8), (0, 1), (6, 3)]));
    let message = GameEventMessage::parse(&mut s, &state).unwrap();
    assert_eq!(message.event.event_type, GameEventTypeId(7));
    assert_eq!(message.event.values, vec![GameEventValue::Byte(3)]);
    assert_eq!(s.read_sized(3).ok(), Some(6));
}

#[test]
fn event_values_of_each_kind() {
    let entries = vec![
        GameEventEntry { name: "l".to_string(), kind: GameEventValueType::Long },
        GameEventEntry { name: "s".to_string(), kind: GameEventValueType::Short },
        GameEventEntry { name: "b".to_string(), kind: GameEventValueType::Boolean },
        GameEventEntry { name: "f".to_string(), kind: GameEventValueType::Float },
        GameEventEntry { name: "x".to_string(), kind: GameEventValueType::Local },
        GameEventEntry { name: "t".to_string(), kind: GameEventValueType::String },
    ];
    let mut state = ParserState::new();
    state.event_definitions.push(GameEventDefinition { id: GameEventTypeId(0), name: "all".to_string(), entries });
    let mut body: Vec<(u64, usize)> = vec![(0, 9), (123456, 32), (65535, 16), (1, 1), (1.5f32.to_bits() as u64, 32)];
    body.extend(cstring("hi"));
    let mut fields = vec![(bit_len(&body), 11)];
    fields.extend(body);
    let mut s = Stream::from_bytes(pack(&fields));
    let message = GameEventMessage::parse(&mut s, &state).unwrap();
    assert_eq!(
        message.event.values,
        vec![
            GameEventValue::Long(123456),
            GameEventValue::Short(65535),
            GameEventValue::Boolean(true),
            GameEventValue::Float(1.5f32.to_bits()),
            GameEventValue::Local,
            GameEventValue::String("hi".to_string()),
        ]
    );
}

#[test]
fn unknown_event_type() {
    let state = ParserState::new();
    let mut s = Stream::from_bytes(pack(&[(9, 11), (3, 9)]));
    assert_eq!(
        GameEventMessage::parse(&mut s, &state).err(),
        Some(ParseError::MalformedGameEvent(GameEventError::UnknownType))
    );
}

#[test]
fn none_kind_entry_is_rejected() {
    let mut state = ParserState::new();
    state.event_definitions.push(GameEventDefinition {
        id: GameEventTypeId(0),
        name: "bad".to_string(),
        entries: vec![GameEventEntry { name: "n".to_string(), kind: GameEventValueType::End }],
    });
    let mut s = Stream::from_bytes(pack(&[(9, 11), (0, 9)]));
    assert_eq!(
        GameEventMessage::parse(&mut s, &state).err(),
        Some(ParseError::MalformedGameEvent(GameEventError::NoneValue))
    );
}

#[test]
fn event_skip_jumps_over_body() {
    let mut s = Stream::from_bytes(pack(&[(20, 11), (0xfffff, 20), (3, 2)]));
    assert!(GameEventMessage::parse_skip(&mut s).is_ok());
    assert_eq!(s.read_sized(2).ok(), Some(3));
}

#[test]
fn short_stream_is_not_enough_data() {
    let mut s = Stream::from_bytes(vec![0xff]);
    assert_eq!(GameEventMessage::parse_skip(&mut s).err(), Some(ParseError::NotEnoughData));
}

#[test]
fn ubitvar_selector_widths() {
    for (selector, width, value) in [(0u64, 4usize, 9u64), (1, 8, 200), (2, 12, 4000), (3, 32, 0xdead_beef)] {
        let mut s = Stream::from_bytes(pack(&[(selector, 2), (value, width), (1, 1)]));
        assert_eq!(read_bit_var(&mut s).ok(), Some(value as u32));
        assert_eq!(s.read_sized(1).ok(), Some(1));
    }
}

#[test]
fn preserve_only_delta() {
    let mut state = state_with_table(vec![int_def("a", 8), int_def("b", 8), int_def("c", 8)]);
    state.entity_classes.insert(5, class_c());
    let body = [(0, 2), (5, 4), (0, 2), (1, 1), (0, 2), (2, 4), (42, 8), (0, 1)];
    let mut s = Stream::from_bytes(entities_message(None, 0, 1, false, &body));
    let message = PacketEntitiesMessage::parse(&mut s, &state).unwrap();
    assert_eq!(message.entities.len(), 1);
    let entity = &message.entities[0];
    assert_eq!(entity.pvs, PVS::Preserve);
    assert_eq!(entity.entity_index, EntityId(5));
    assert_eq!(entity.props, vec![SendProp { index: 2, value: SendPropValue::Integer(42) }]);
    assert_eq!(state.entity_classes.len(), 1);
    assert_eq!(state.entity_classes[&5], class_c());
}

fn enter_body(update_index_gap: u64, value_bits: u32) -> Vec<(u64, usize)> {
    vec![
        (0, 2), (3, 4), // entity 3
        (2, 2),         // enter
        (0, 1),         // class index, one bit for one class
        (17, 10),       // serial
        (1, 1), (0, 2), (update_index_gap, 4), (value_bits as u64, 32), (0, 1),
    ]
}

#[test]
fn enter_with_static_baseline() {
    let defs = vec![float_def("a"), float_def("b"), float_def("c"), float_def("d")];
    let mut state = state_with_table(defs);
    state
        .static_baselines
        .insert(0, pack(&[(1, 1), (0, 2), (0, 4), (1.0f32.to_bits() as u64, 32), (0, 1)]));
    let body = enter_body(3, 2.0f32.to_bits());
    let mut s = Stream::from_bytes(entities_message(None, 0, 1, false, &body));
    let message = PacketEntitiesMessage::parse(&mut s, &state).unwrap();
    let entity = &message.entities[0];
    assert_eq!(entity.pvs, PVS::Enter);
    assert!(entity.in_pvs);
    assert_eq!(entity.serial_number, 17);
    assert_eq!(
        entity.props,
        vec![
            SendProp { index: 0, value: SendPropValue::Float(FloatValue::Bits(1.0f32.to_bits())) },
            SendProp { index: 3, value: SendPropValue::Float(FloatValue::Bits(2.0f32.to_bits())) },
        ]
    );
}

#[test]
fn updated_baseline_promotion() {
    let defs = vec![float_def("a"), float_def("b")];
    let mut state = state_with_table(defs);
    state.instance_baselines[0].insert(9, vec![]);
    let body = enter_body(1, 3.0f32.to_bits());
    let mut s = Stream::from_bytes(entities_message(None, 0, 1, true, &body));
    let message = PacketEntitiesMessage::parse(&mut s, &state).unwrap();
    assert_eq!(message.base_line, 0);
    assert!(message.updated_base_line);
    state.promote_baselines(&message);
    assert_eq!(state.instance_baselines[1][&3], message.entities[0].props);
    assert_eq!(state.instance_baselines[0].len(), 1);
    assert!(state.instance_baselines[0][&9].is_empty());
}

#[test]
fn enter_reads_instance_baseline_of_chosen_slot() {
    let defs = vec![float_def("a"), float_def("b")];
    let mut state = state_with_table(defs);
    state.instance_baselines[1].insert(
        3,
        vec![SendProp { index: 0, value: SendPropValue::Float(FloatValue::Bits(7)) }],
    );
    let body = enter_body(1, 8);
    let mut s = Stream::from_bytes(entities_message(None, 1, 1, false, &body));
    let message = PacketEntitiesMessage::parse(&mut s, &state).unwrap();
    assert_eq!(
        message.entities[0].props,
        vec![
            SendProp { index: 0, value: SendPropValue::Float(FloatValue::Bits(7)) },
            SendProp { index: 1, value: SendPropValue::Float(FloatValue::Bits(8)) },
        ]
    );
}

#[test]
fn delete_trailer() {
    let state = state_with_table(vec![]);
    let body = [(1, 1), (7, 11), (1, 1), (42, 11), (0, 1)];
    let mut s = Stream::from_bytes(entities_message(Some(100), 0, 0, false, &body));
    let message = PacketEntitiesMessage::parse(&mut s, &state).unwrap();
    assert_eq!(message.delta, Some(100));
    assert_eq!(message.removed_entities, vec![EntityId(7), EntityId(42)]);
}

#[test]
fn no_trailer_without_delta() {
    let state = state_with_table(vec![]);
    let body = [(1, 1), (7, 11), (0, 1)];
    let mut s = Stream::from_bytes(entities_message(None, 0, 0, false, &body));
    let message = PacketEntitiesMessage::parse(&mut s, &state).unwrap();
    assert!(message.removed_entities.is_empty());
}

#[test]
fn unknown_entity_on_preserve() {
    let state = state_with_table(vec![int_def("a", 8)]);
    let body = [(0, 2), (5, 4), (0, 2), (0, 1)];
    let mut s = Stream::from_bytes(entities_message(None, 0, 1, false, &body));
    assert_eq!(PacketEntitiesMessage::parse(&mut s, &state).err(), Some(ParseError::UnknownEntity(5)));
}

#[test]
fn leave_of_unknown_entity_is_omitted() {
    let mut state = state_with_table(vec![]);
    state.entity_classes.insert(2, class_c());
    let body = [(0, 2), (1, 4), (1, 2), (0, 2), (0, 4), (3, 2)];
    let mut s = Stream::from_bytes(entities_message(None, 0, 2, false, &body));
    let message = PacketEntitiesMessage::parse(&mut s, &state).unwrap();
    assert_eq!(message.entities.len(), 1);
    // entity 1 is not live, so its leave is dropped; entity 2 is deleted
    assert_eq!(message.entities[0].entity_index, EntityId(2));
    assert_eq!(message.entities[0].pvs, PVS::Delete);
    assert!(message.entities[0].props.is_empty());
}

#[test]
fn prop_index_out_of_bounds() {
    let mut state = state_with_table(vec![int_def("a", 8)]);
    state.entity_classes.insert(0, class_c());
    let body = [(0, 2), (0, 4), (0, 2), (1, 1), (0, 2), (4, 4)];
    let mut s = Stream::from_bytes(entities_message(None, 0, 1, false, &body));
    assert_eq!(
        PacketEntitiesMessage::parse(&mut s, &state).err(),
        Some(ParseError::PropIndexOutOfBounds { index: 4, prop_count: 1 })
    );
}

#[test]
fn unknown_server_class() {
    let mut state = state_with_table(vec![]);
    state.server_classes.push(class_c());
    state.server_classes.push(class_c());
    // three classes: ceil(log2(3)) + 1 = 3 bits of class index
    let body = [(0, 2), (0, 4), (2, 2), (5, 3)];
    let mut s = Stream::from_bytes(entities_message(None, 0, 1, false, &body));
    assert_eq!(PacketEntitiesMessage::parse(&mut s, &state).err(), Some(ParseError::UnknownServerClass(5)));
}

#[test]
fn packet_entities_skip() {
    let body = [(0xabc, 12)];
    let mut bytes_fields: Vec<(u64, usize)> = vec![(64, 11), (1, 1), (9, 32), (0, 1), (0, 11), (12, 20), (0, 1)];
    bytes_fields.extend_from_slice(&body);
    bytes_fields.push((2, 2));
    let mut s = Stream::from_bytes(pack(&bytes_fields));
    assert!(PacketEntitiesMessage::parse_skip(&mut s).is_ok());
    assert_eq!(s.read_sized(2).ok(), Some(2));
}

#[test]
fn apply_update_replaces_and_appends() {
    let mut entity = PacketEntity {
        server_class: class_c(),
        entity_index: EntityId(1),
        props: vec![
            SendProp { index: 0, value: SendPropValue::Integer(1) },
            SendProp { index: 2, value: SendPropValue::Integer(2) },
        ],
        in_pvs: true,
        pvs: PVS::Enter,
        serial_number: 0,
        delay: None,
    };
    entity.apply_update(vec![
        SendProp { index: 2, value: SendPropValue::Integer(20) },
        SendProp { index: 5, value: SendPropValue::Integer(50) },
        SendProp { index: 5, value: SendPropValue::Integer(51) },
    ]);
    assert_eq!(
        entity.props,
        vec![
            SendProp { index: 0, value: SendPropValue::Integer(1) },
            SendProp { index: 2, value: SendPropValue::Integer(20) },
            SendProp { index: 5, value: SendPropValue::Integer(51) },
        ]
    );
    assert_eq!(entity.get_prop_by_definition(5), Some(2));
    assert_eq!(entity.get_prop_by_definition(4), None);
}

#[test]
fn signed_and_unsigned_ints() {
    let mut signed = int_def("s", 8);
    signed.flags = 0;
    let mut s = Stream::from_bytes(pack(&[(0xfe, 8), (0x7f, 8)]));
    assert_eq!(SendPropValue::parse(&mut s, &signed).ok(), Some(SendPropValue::Integer(-2)));
    assert_eq!(SendPropValue::parse(&mut s, &signed).ok(), Some(SendPropValue::Integer(127)));
    let unsigned = int_def("u", 8);
    let mut s = Stream::from_bytes(pack(&[(0xfe, 8)]));
    assert_eq!(SendPropValue::parse(&mut s, &unsigned).ok(), Some(SendPropValue::Integer(254)));
    let wide = int_def("w", 40);
    let mut s = Stream::from_bytes(vec![0; 8]);
    assert_eq!(SendPropValue::parse(&mut s, &wide).err(), Some(ParseError::InvalidEncoding));
}

#[test]
fn coord_float() {
    let mut def = float_def("c");
    def.flags = FLAG_COORD;
    // integer and fraction present, negative, integer part 2 (sent as 1), fraction 16
    let mut s = Stream::from_bytes(pack(&[(1, 1), (1, 1), (1, 1), (1, 14), (16, 5)]));
    assert_eq!(SendPropValue::parse(&mut s, &def).ok(), Some(SendPropValue::Float(FloatValue::Coord(-(2 * 32 + 16)))));
    let mut s = Stream::from_bytes(pack(&[(0, 1), (0, 1)]));
    assert_eq!(SendPropValue::parse(&mut s, &def).ok(), Some(SendPropValue::Float(FloatValue::Coord(0))));
}

#[test]
fn scaled_and_normal_floats() {
    let mut def = float_def("f");
    def.flags = 0;
    def.bit_count = 10;
    let mut s = Stream::from_bytes(pack(&[(1000, 10)]));
    assert_eq!(SendPropValue::parse(&mut s, &def).ok(), Some(SendPropValue::Float(FloatValue::Scaled(1000))));
    def.flags = 32;
    let mut s = Stream::from_bytes(pack(&[(1, 1), (300, 10)]));
    assert_eq!(
        SendPropValue::parse(&mut s, &def).ok(),
        Some(SendPropValue::Float(FloatValue::Normal { negative: true, magnitude: 300 }))
    );
}

#[test]
fn vectors() {
    let mut def = float_def("v");
    def.kind = SendPropKind::Vector;
    let mut s = Stream::from_bytes(pack(&[(1, 32), (2, 32), (3, 32)]));
    def.flags = FLAG_NO_SCALE | 32;
    assert_eq!(
        SendPropValue::parse(&mut s, &def).ok(),
        Some(SendPropValue::Vector(FloatValue::Bits(1), FloatValue::Bits(2), FloatValue::Bits(3)))
    );
    def.flags = FLAG_NO_SCALE;
    let mut s = Stream::from_bytes(pack(&[(1, 32), (2, 32), (1, 1)]));
    assert_eq!(
        SendPropValue::parse(&mut s, &def).ok(),
        Some(SendPropValue::Vector(FloatValue::Bits(1), FloatValue::Bits(2), FloatValue::UnitSign { negative: true }))
    );
    def.kind = SendPropKind::VectorXY;
    let mut s = Stream::from_bytes(pack(&[(4, 32), (5, 32)]));
    assert_eq!(
        SendPropValue::parse(&mut s, &def).ok(),
        Some(SendPropValue::VectorXY(FloatValue::Bits(4), FloatValue::Bits(5)))
    );
}

#[test]
fn string_and_array_props() {
    let mut def = int_def("s", 0);
    def.kind = SendPropKind::String;
    let mut s = Stream::from_bytes(pack(&[(3, 9), (b'a' as u64, 8), (b'b' as u64, 8), (0, 8)]));
    assert_eq!(SendPropValue::parse(&mut s, &def).ok(), Some(SendPropValue::String(vec![b'a', b'b', 0])));

    let mut array = int_def("arr", 0);
    array.kind = SendPropKind::Array;
    array.element_count = 5;
    array.array_element = Some(Box::new(int_def("e", 4)));
    // five elements at most: ceil(log2(5)) + 1 = 4 bits of count
    let mut s = Stream::from_bytes(pack(&[(2, 4), (7, 4), (9, 4)]));
    assert_eq!(
        SendPropValue::parse(&mut s, &array).ok(),
        Some(SendPropValue::Array(vec![SendPropValue::Integer(7), SendPropValue::Integer(9)]))
    );
    array.array_element = None;
    let mut s = Stream::from_bytes(pack(&[(0, 8)]));
    assert_eq!(SendPropValue::parse(&mut s, &array).err(), Some(ParseError::InvalidEncoding));
}

#[test]
fn count_bits_values() {
    assert_eq!(count_bits(0), 1);
    assert_eq!(count_bits(1), 1);
    assert_eq!(count_bits(2), 2);
    assert_eq!(count_bits(3), 3);
    assert_eq!(count_bits(4), 3);
    assert_eq!(count_bits(5), 4);
    assert_eq!(count_bits(1024), 11);
}

#[test]
fn teams_and_classes() {
    assert_eq!(Team::new(0), Team::Other);
    assert_eq!(Team::new(1), Team::Spectator);
    assert_eq!(Team::new(2), Team::Red);
    assert_eq!(Team::new(3), Team::Blue);
    assert_eq!(Team::new(4), Team::Other);
    assert_eq!(Class::new(1), Class::Scout);
    assert_eq!(Class::new(9), Class::Engineer);
    assert_eq!(Class::new(10), Class::Other);
    let mut list = ClassList::new();
    list.add_spawn(Class::Medic);
    list.add_spawn(Class::Medic);
    assert_eq!(list.index(Class::Medic), 2);
    assert_eq!(list.index(Class::Scout), 0);
}

#[test]
fn spawn_and_death_records() {
    let spawn = Spawn::from_event(&PlayerSpawnEvent { user_id: 258, team: 3, class: 7 }, 100);
    assert_eq!(spawn, Spawn { user: UserId(2), class: Class::Pyro, team: Team::Blue, tick: 100 });
    let death = Death::from_event(
        &PlayerDeathEvent { user_id: 3, attacker: 4, assister: 16 * 1024, weapon: "scattergun".to_string() },
        7,
    );
    assert_eq!(death.assister, None);
    assert_eq!(death.killer, UserId(4));
    assert_eq!(death.victim, UserId(3));
    assert_eq!(death.weapon, "scattergun");
    let death = Death::from_event(
        &PlayerDeathEvent { user_id: 3, attacker: 4, assister: 300, weapon: String::new() },
        7,
    );
    assert_eq!(death.assister, Some(UserId(44)));
    assert_eq!(UserId::from(513u32), UserId(1));
    assert_eq!(EntityId::from(9u32), EntityId(9));
}

#[test]
fn chat_from_message() {
    let message = SayText2Message {
        client: 1,
        raw: 1,
        kind: ChatMessageKind::ChatAll,
        from: None,
        text: "gg".to_string(),
    };
    let chat = ChatMassage::from_message(&message, 12);
    assert_eq!(chat, ChatMassage { kind: ChatMessageKind::ChatAll, from: String::new(), text: "gg".to_string(), tick: 12 });
}

#[test]
fn round_trip_of_prop_values() {
    // a signed 12-bit integer, an unscaled float and a string, written then read
    let mut signed = int_def("s", 12);
    signed.flags = 0;
    let text = b"demo";
    let mut fields: Vec<(u64, usize)> = vec![((-1000i64 + 4096) as u64, 12), (0.25f32.to_bits() as u64, 32), (4, 9)];
    fields.extend(text.iter().map(|b| (*b as u64, 8)));
    let mut s = Stream::from_bytes(pack(&fields));
    assert_eq!(SendPropValue::parse(&mut s, &signed).ok(), Some(SendPropValue::Integer(-1000)));
    assert_eq!(
        SendPropValue::parse(&mut s, &float_def("f")).ok(),
        Some(SendPropValue::Float(FloatValue::Bits(0.25f32.to_bits())))
    );
    let mut string = int_def("t", 0);
    string.kind = SendPropKind::String;
    assert_eq!(SendPropValue::parse(&mut s, &string).ok(), Some(SendPropValue::String(text.to_vec())));
}

#[test]
fn update_indices_rise() {
    let mut state = state_with_table(vec![int_def("a", 4), int_def("b", 4), int_def("c", 4), int_def("d", 4)]);
    state.entity_classes.insert(0, class_c());
    state.entity_classes.insert(6, class_c());
    let body = [
        (0, 2), (0, 4), (0, 2), (1, 1), (0, 2), (0, 4), (1, 4), (1, 1), (0, 2), (1, 4), (2, 4), (0, 1),
        (0, 2), (5, 4), (0, 2), (0, 1),
    ];
    let mut s = Stream::from_bytes(entities_message(None, 0, 2, false, &body));
    let message = PacketEntitiesMessage::parse(&mut s, &state).unwrap();
    let ids: Vec<u32> = message.entities.iter().map(|e| e.entity_index.0).collect();
    assert_eq!(ids, vec![0, 6]);
    let indices: Vec<usize> = message.entities[0].props.iter().map(|p| p.index).collect();
    assert_eq!(indices, vec![0, 2]);
}

#[test]
fn entity_id_from_text() {
    assert_eq!("42".parse::<EntityId>().ok(), Some(EntityId(42)));
    assert_eq!(EntityId::parse_decimal("+7"), Some(EntityId(7)));
    assert_eq!(EntityId::parse_decimal("4294967295"), Some(EntityId(4294967295)));
    assert_eq!(EntityId::parse_decimal("4294967296"), None);
    assert_eq!(EntityId::parse_decimal(""), None);
    assert_eq!(EntityId::parse_decimal("12a"), None);
    assert!("-1".parse::<EntityId>().is_err());
}

#[test]
fn unknown_send_table() {
    let mut state = ParserState::new();
    state.server_classes.push(ServerClass { id: 0, name: "CLost".to_string(), data_table: "DT_Lost".to_string() });
    let body = enter_body(0, 0);
    let mut s = Stream::from_bytes(entities_message(None, 0, 1, false, &body));
    assert_eq!(
        PacketEntitiesMessage::parse(&mut s, &state).err(),
        Some(ParseError::UnknownSendTable("DT_Lost".to_string()))
    );
}

#[test]
fn data_table_prop_is_invalid() {
    let mut def = int_def("dt", 0);
    def.kind = SendPropKind::DataTable;
    let mut s = Stream::from_bytes(vec![0; 4]);
    assert_eq!(SendPropValue::parse(&mut s, &def).err(), Some(ParseError::InvalidEncoding));
}

#[test]
fn array_of_arrays_is_invalid() {
    let mut inner = int_def("inner", 0);
    inner.kind = SendPropKind::Array;
    inner.element_count = 2;
    inner.array_element = Some(Box::new(int_def("e", 4)));
    let mut outer = int_def("outer", 0);
    outer.kind = SendPropKind::Array;
    outer.element_count = 2;
    outer.array_element = Some(Box::new(inner));
    let mut s = Stream::from_bytes(pack(&[(1, 2), (1, 2), (3, 4)]));
    assert_eq!(SendPropValue::parse(&mut s, &outer).err(), Some(ParseError::InvalidEncoding));
}

#[test]
fn empty_update_list() {
    let mut state = state_with_table(vec![int_def("a", 8)]);
    state.entity_classes.insert(1, class_c());
    let body = [(0, 2), (1, 4), (0, 2), (0, 1)];
    let mut s = Stream::from_bytes(entities_message(None, 0, 1, false, &body));
    let message = PacketEntitiesMessage::parse(&mut s, &state).unwrap();
    assert!(message.entities[0].props.is_empty());
}

#[test]
fn out_of_bounds_after_valid_prop() {
    let mut state = state_with_table(vec![int_def("a", 8), int_def("b", 8)]);
    state.entity_classes.insert(0, class_c());
    // index 1 is valid, the next gap of 3 lands on 5
    let body = [(0, 2), (0, 4), (0, 2), (1, 1), (0, 2), (1, 4), (9, 8), (1, 1), (0, 2), (3, 4)];
    let mut s = Stream::from_bytes(entities_message(None, 0, 1, false, &body));
    assert_eq!(
        PacketEntitiesMessage::parse(&mut s, &state).err(),
        Some(ParseError::PropIndexOutOfBounds { index: 5, prop_count: 2 })
    );
}
