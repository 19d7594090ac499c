use tf_demo_core::analyser::{
    Analyser, ChatMessageKind, Class, ClassList, GameEvent, Message, MessageType,
    PlayerDeathEvent, PlayerSpawnEvent, Round, SayText2Message, Team, TeamPlayRoundWinEvent,
    UserId, UserInfo, UserMessage, UserState,
};
use tf_demo_core::bits::{GameEventError, ParseError};
use tf_demo_core::gameevent::{
    GameEventDefinition, GameEventEntry, GameEventTypeId, GameEventValue, GameEventValueType,
    RawGameEvent,
};
use tf_demo_core::packetentities::EntityId;

fn spawn(user_id: u16, class: u16, team: u16) -> GameEvent {
    GameEvent::PlayerSpawn(PlayerSpawnEvent { user_id, team, class })
}

fn analyser_with_player() -> Analyser {
    let mut analyser = Analyser::new();
    analyser.register_user("alice".to_string(), UserId(3), "[U:1:1]".to_string(), Some(EntityId(2)));
    analyser
}

#[test]
fn does_handle_events_and_user_messages() {
    assert!(Analyser::does_handle(MessageType::GameEvent));
    assert!(Analyser::does_handle(MessageType::UserMessage));
    assert!(!Analyser::does_handle(MessageType::Other));
}

#[test]
fn register_user_needs_entity_and_steam_id() {
    let mut analyser = Analyser::new();
    analyser.register_user("a".to_string(), UserId(1), String::new(), Some(EntityId(1)));
    analyser.register_user("b".to_string(), UserId(2), "[U:1:2]".to_string(), None);
    assert!(analyser.users.is_empty());
    assert!(analyser.user_states.is_empty());
    let analyser = analyser_with_player();
    assert_eq!(
        analyser.users[&3],
        UserInfo { name: "alice".to_string(), user_id: UserId(3), steam_id: "[U:1:1]".to_string(), entity_id: EntityId(2) }
    );
    let state = &analyser.user_states[&3];
    assert_eq!(state.team, Team::Other);
    assert_eq!(state.classes, ClassList::new());
}

#[test]
fn spawn_counts_class_and_sets_team() {
    let mut analyser = analyser_with_player();
    analyser.handle_event(&spawn(3, 5, 2), 10);
    analyser.handle_event(&spawn(3, 5, 3), 11);
    analyser.handle_event(&spawn(9, 1, 2), 12);
    assert_eq!(analyser.user_spawns.len(), 3);
    let state = &analyser.user_states[&3];
    assert_eq!(state.classes.index(Class::Medic), 2);
    assert_eq!(state.team, Team::Blue);
    assert_eq!(analyser.user_states.len(), 1);
}

#[test]
fn deaths_and_rounds() {
    let mut analyser = Analyser::new();
    analyser.handle_event(
        &GameEvent::PlayerDeath(PlayerDeathEvent { user_id: 1, attacker: 2, assister: 3, weapon: "knife".to_string() }),
        50,
    );
    assert_eq!(analyser.deaths.len(), 1);
    assert_eq!(analyser.deaths[0].assister, Some(UserId(3)));
    let win = TeamPlayRoundWinEvent { team: 2, win_reason: 1, round_time: 120.5f32.to_bits() };
    analyser.handle_event(&GameEvent::TeamPlayRoundWin(win), 60);
    let time_limit = TeamPlayRoundWinEvent { team: 3, win_reason: 6, round_time: 0 };
    analyser.handle_event(&GameEvent::TeamPlayRoundWin(time_limit), 70);
    assert_eq!(analyser.rounds, vec![Round { winner: Team::Red, length: 120.5f32.to_bits(), end_tick: 60 }]);
    analyser.handle_event(&GameEvent::Other, 80);
    assert_eq!(analyser.deaths.len(), 1);
}

#[test]
fn chat_and_name_change() {
    let mut analyser = analyser_with_player();
    let chat = SayText2Message {
        client: 1,
        raw: 1,
        kind: ChatMessageKind::ChatTeam,
        from: Some("alice".to_string()),
        text: "hello".to_string(),
    };
    analyser.handle_message(&Message::UserMessage(UserMessage::SayText2(chat)), 40);
    assert_eq!(analyser.start_tick, 40);
    assert_eq!(analyser.chat.len(), 1);
    assert_eq!(analyser.chat[0].from, "alice");
    assert_eq!(analyser.chat[0].text, "hello");
    assert_eq!(analyser.chat[0].tick, 40);
    let rename = SayText2Message {
        client: 1,
        raw: 1,
        kind: ChatMessageKind::NameChange,
        from: Some("alice".to_string()),
        text: "bob".to_string(),
    };
    analyser.handle_message(&Message::UserMessage(UserMessage::SayText2(rename)), 45);
    assert_eq!(analyser.start_tick, 40);
    assert_eq!(analyser.chat.len(), 1);
    assert_eq!(analyser.users[&3].name, "bob");
    assert_eq!(analyser.user_states[&3].name, "bob");
}

#[test]
fn change_name_renames_lowest_id_only() {
    let mut analyser = Analyser::new();
    analyser.register_user("x".to_string(), UserId(7), "s7".to_string(), Some(EntityId(7)));
    analyser.register_user("x".to_string(), UserId(4), "s4".to_string(), Some(EntityId(4)));
    analyser.change_name("x".to_string(), "y".to_string());
    assert_eq!(analyser.users[&4].name, "y");
    assert_eq!(analyser.users[&7].name, "x");
    analyser.change_name("nobody".to_string(), "z".to_string());
    assert_eq!(analyser.users[&4].name, "y");
}

#[test]
fn output_carries_summary() {
    let mut analyser = analyser_with_player();
    analyser.handle_message(&Message::GameEvent(spawn(3, 1, 2)), 99);
    let output = analyser.get_output(0.015f32.to_bits());
    assert_eq!(output.start_tick, 99);
    assert_eq!(output.interval_per_tick, 0.015f32.to_bits());
    assert_eq!(output.users.len(), 1);
    let state: &UserState = &output.users[&3];
    assert_eq!(state.classes.played(), vec![(1, 1)]);
}

#[test]
fn class_list_played_and_set() {
    let mut list = ClassList::new();
    assert!(list.played().is_empty());
    list.set(Class::Engineer, 4);
    list.set(Class::Scout, 1);
    assert_eq!(list.played(), vec![(1, 1), (9, 4)]);
    for _ in 0..300 {
        list.add_spawn(Class::Spy);
    }
    assert_eq!(list.index(Class::Spy), 255);
}

#[test]
fn user_state_from_user() {
    let info = UserInfo { name: "n".to_string(), user_id: UserId(1), steam_id: "s".to_string(), entity_id: EntityId(1) };
    let state = UserState::from_user(info);
    assert_eq!(state.team, Team::Other);
    assert_eq!(state.classes, ClassList::new());
    assert_eq!(state.name, "n");
}

#[test]
fn team_and_class_numbers() {
    assert_eq!(Team::Blue.number(), 3);
    assert_eq!(Class::Engineer.number(), 9);
    assert_eq!(Class::new(Class::Heavy.number() as u16), Class::Heavy);
}

fn definition(name: &str, entries: &[(&str, GameEventValueType)]) -> GameEventDefinition {
    GameEventDefinition {
        id: GameEventTypeId(1),
        name: name.to_string(),
        entries: entries.iter().map(|(n, k)| GameEventEntry { name: n.to_string(), kind: *k }).collect(),
    }
}

#[test]
fn typed_events_from_raw() {
    let def = definition(
        "player_spawn",
        &[("userid", GameEventValueType::Short), ("team", GameEventValueType::Short), ("class", GameEventValueType::Short)],
    );
    let raw = RawGameEvent {
        event_type: GameEventTypeId(1),
        values: vec![GameEventValue::Short(12), GameEventValue::Short(3), GameEventValue::Short(4)],
    };
    assert_eq!(
        GameEvent::from_raw_event(&def, &raw).ok(),
        Some(GameEvent::PlayerSpawn(PlayerSpawnEvent { user_id: 12, team: 3, class: 4 }))
    );

    let def = definition(
        "player_death",
        &[
            ("userid", GameEventValueType::Short),
            ("victim_entindex", GameEventValueType::Long),
            ("attacker", GameEventValueType::Short),
            ("weapon", GameEventValueType::String),
            ("assister", GameEventValueType::Short),
        ],
    );
    let raw = RawGameEvent {
        event_type: GameEventTypeId(1),
        values: vec![
            GameEventValue::Short(1),
            GameEventValue::Long(9),
            GameEventValue::Short(2),
            GameEventValue::String("rocket".to_string()),
            GameEventValue::Short(65535),
        ],
    };
    assert_eq!(
        GameEvent::from_raw_event(&def, &raw).ok(),
        Some(GameEvent::PlayerDeath(PlayerDeathEvent { user_id: 1, attacker: 2, assister: 65535, weapon: "rocket".to_string() }))
    );

    let def = definition(
        "teamplay_round_win",
        &[("team", GameEventValueType::Byte), ("winreason", GameEventValueType::Byte), ("round_time", GameEventValueType::Float)],
    );
    let raw = RawGameEvent {
        event_type: GameEventTypeId(1),
        values: vec![GameEventValue::Byte(3), GameEventValue::Byte(1), GameEventValue::Float(60.0f32.to_bits())],
    };
    assert_eq!(
        GameEvent::from_raw_event(&def, &raw).ok(),
        Some(GameEvent::TeamPlayRoundWin(TeamPlayRoundWinEvent { team: 3, win_reason: 1, round_time: 60.0f32.to_bits() }))
    );

    let def = definition("round_start", &[("reason", GameEventValueType::Byte)]);
    let raw = RawGameEvent { event_type: GameEventTypeId(1), values: vec![GameEventValue::Byte(3)] };
    assert_eq!(GameEvent::from_raw_event(&def, &raw).ok(), Some(GameEvent::Other));
}

#[test]
fn missing_entry_of_known_event() {
    let def = definition("player_spawn", &[("userid", GameEventValueType::Short), ("team", GameEventValueType::Byte)]);
    let raw = RawGameEvent {
        event_type: GameEventTypeId(1),
        values: vec![GameEventValue::Short(12), GameEventValue::Byte(3)],
    };
    assert_eq!(
        GameEvent::from_raw_event(&def, &raw).err(),
        Some(ParseError::MalformedGameEvent(GameEventError::MissingEntry))
    );
}

fn user_info_bytes(name: &str, user_id: u32, steam_id: &str) -> Vec<u8> {
    let mut data = vec![0u8; 32];
    data[..name.len()].copy_from_slice(name.as_bytes());
    data.extend_from_slice(&user_id.to_le_bytes());
    data.extend_from_slice(steam_id.as_bytes());
    data.push(0);
    data
}

#[test]
fn user_info_entry_registers_player() {
    let mut analyser = Analyser::new();
    let data = user_info_bytes("carol", 0x105, "[U:1:5]");
    let len = data.len();
    analyser.handle_string_entry("userinfo", Some("12"), Some((data, len)));
    assert_eq!(
        analyser.users[&5],
        UserInfo { name: "carol".to_string(), user_id: UserId(5), steam_id: "[U:1:5]".to_string(), entity_id: EntityId(12) }
    );
    let data = user_info_bytes("dave", 6, "[U:1:6]");
    analyser.handle_string_entry("other", Some("13"), Some((data.clone(), 40)));
    analyser.handle_string_entry("userinfo", Some("13"), Some((data.clone(), 32)));
    analyser.handle_string_entry("userinfo", Some("x"), Some((data, 40)));
    assert_eq!(analyser.users.len(), 1);
}
