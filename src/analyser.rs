//! Records that the match summary is built from: chat lines, spawns,
//! deaths, players and their classes.
use vstd::prelude::*;
use std::collections::HashMap;
use crate::bits::{
    bits_value, bytes_bits, read_cstring, read_failure, read_fixed_string, read_uint, GameEventError,
    ParseError, Stream,
};
use crate::gameevent::{GameEventDefinition, GameEventEntry, GameEventValue, RawGameEvent};
use crate::packetentities::{decimal_text, EntityId};

verus! {

broadcast use vstd::std_specs::hash::group_hash_axioms;

/// Kind of a chat message.
#[derive(Debug, Clone, Copy, PartialEq, Eq, Structural)]
pub enum ChatMessageKind {
    ChatAll,
    ChatTeam,
    ChatAllDead,
    ChatTeamDead,
    ChatAllSpec,
    NameChange,
    Empty,
}

/// A chat user message.
#[derive(Debug, Clone, PartialEq)]
pub struct SayText2Message {
    pub client: u8,
    pub raw: u8,
    pub kind: ChatMessageKind,
    pub from: Option<String>,
    pub text: String,
}

/// A chat line of the summary.
#[derive(Debug, Clone, PartialEq)]
pub struct ChatMassage {
    pub kind: ChatMessageKind,
    pub from: String,
    pub text: String,
    pub tick: u32,
}

impl ChatMassage {
    /// The chat line of a message; a message without a sender gets an
    /// empty one.
    pub fn from_message(message: &SayText2Message, tick: u32) -> (r: ChatMassage)
        ensures
            r.kind == message.kind,
            r.from@ == match message.from {
                Some(f) => f@,
                None => Seq::<char>::empty(),
            },
            r.text@ == message.text@,
            r.tick == tick,
    {
        ChatMassage {
            kind: message.kind,
            from: match &message.from {
                Some(f) => f.clone(),
                None => String::new(),
            },
            text: message.text.clone(),
            tick,
        }
    }
}

/// A team.
#[derive(Debug, Clone, Copy, PartialEq, Eq, Structural, Hash)]
pub enum Team {
    Other,
    Spectator,
    Red,
    Blue,
}

/// The team of a team number.
pub open spec fn team_of(number: u16) -> Team {
    if number == 1 {
        Team::Spectator
    } else if number == 2 {
        Team::Red
    } else if number == 3 {
        Team::Blue
    } else {
        Team::Other
    }
}

impl Team {
    /// 1 is spectator, 2 red, 3 blue; any other number is `Other`.
    pub fn new(number: u16) -> (r: Team)
        ensures
            r == team_of(number),
    {
        match number {
            1 => Team::Spectator,
            2 => Team::Red,
            3 => Team::Blue,
            _ => Team::Other,
        }
    }

    /// The team's number: 0 for `Other`.
    pub fn number(self) -> (r: u8)
        ensures
            r < 4,
            team_of(r as u16) == self,
    {
        match self {
            Team::Other => 0,
            Team::Spectator => 1,
            Team::Red => 2,
            Team::Blue => 3,
        }
    }
}

/// A player class.
#[derive(Debug, Clone, Copy, PartialEq, Eq, Structural, Hash)]
pub enum Class {
    Other,
    Scout,
    Sniper,
    Solder,
    Demoman,
    Medic,
    Heavy,
    Pyro,
    Spy,
    Engineer,
}

/// The class of a class number; numbers past 9 are `Other`.
pub open spec fn class_of(number: u16) -> Class {
    if number == 1 {
        Class::Scout
    } else if number == 2 {
        Class::Sniper
    } else if number == 3 {
        Class::Solder
    } else if number == 4 {
        Class::Demoman
    } else if number == 5 {
        Class::Medic
    } else if number == 6 {
        Class::Heavy
    } else if number == 7 {
        Class::Pyro
    } else if number == 8 {
        Class::Spy
    } else if number == 9 {
        Class::Engineer
    } else {
        Class::Other
    }
}

/// The class's number: 0 for `Other`.
pub open spec fn class_index(c: Class) -> int {
    match c {
        Class::Other => 0,
        Class::Scout => 1,
        Class::Sniper => 2,
        Class::Solder => 3,
        Class::Demoman => 4,
        Class::Medic => 5,
        Class::Heavy => 6,
        Class::Pyro => 7,
        Class::Spy => 8,
        Class::Engineer => 9,
    }
}

impl Class {
    /// The class of a class number; numbers past 9 are `Other`.
    pub fn new(number: u16) -> (r: Class)
        ensures
            r == class_of(number),
    {
        match number {
            1 => Class::Scout,
            2 => Class::Sniper,
            3 => Class::Solder,
            4 => Class::Demoman,
            5 => Class::Medic,
            6 => Class::Heavy,
            7 => Class::Pyro,
            8 => Class::Spy,
            9 => Class::Engineer,
            _ => Class::Other,
        }
    }

    /// The class's number: 0 for `Other`.
    pub fn number(self) -> (r: u8)
        ensures
            r == class_index(self),
            class_of(r as u16) == self,
    {
        match self {
            Class::Other => 0,
            Class::Scout => 1,
            Class::Sniper => 2,
            Class::Solder => 3,
            Class::Demoman => 4,
            Class::Medic => 5,
            Class::Heavy => 6,
            Class::Pyro => 7,
            Class::Spy => 8,
            Class::Engineer => 9,
        }
    }
}

/// How many times a player spawned as each class, by class number.
#[derive(Debug, PartialEq, Eq)]
pub struct ClassList(pub [u8; 10]);

impl ClassList {
    /// All counts zero.
    pub fn new() -> (r: ClassList)
        ensures
            forall|i: int| 0 <= i < 10 ==> r.0[i] == 0,
    {
        ClassList([0u8; 10])
    }

    /// The count of a class.
    pub fn index(&self, class: Class) -> (r: u8)
        ensures
            r == self.0[class_index(class)],
    {
        self.0[class.number() as usize]
    }

    /// Sets the count of a class.
    pub fn set(&mut self, class: Class, count: u8)
        ensures
            final(self).0@ == old(self).0@.update(class_index(class), count),
    {
        let i = class.number() as usize;
        self.0[i] = count;
    }

    /// The classes played, as (class number, count) pairs in class order,
    /// leaving out the classes with a count of zero.
    pub fn played(&self) -> (r: Vec<(u8, u8)>)
        ensures
            r@ == played_from(self.0@, 0),
    {
        let mut i: usize = 10;
        let mut rev: Vec<(u8, u8)> = Vec::new();
        while i > 0
            invariant
                i <= 10,
                self.0@.len() == 10,
                rev@ == played_from(self.0@, i as nat),
            decreases i,
        {
            i = i - 1;
            let count = self.0[i];
            if count > 0 {
                rev.insert(0, (i as u8, count));
            }
        }
        rev
    }

    /// Raises the count of a class by one, staying at 255 once there.
    pub fn add_spawn(&mut self, class: Class)
        ensures
            forall|i: int|
                0 <= i < 10 && i != class_index(class) ==> final(self).0[i] == old(self).0[i],
            final(self).0[class_index(class)] == if old(self).0[class_index(class)] == 255 {
                255u8
            } else {
                (old(self).0[class_index(class)] + 1) as u8
            },
    {
        let i = class.number() as usize;
        let v = self.0[i];
        self.0[i] = if v == 255 { 255 } else { v + 1 };
    }
}

/// The (class number, count) pairs of the classes from `from` on whose
/// count is not zero.
pub open spec fn played_from(counts: Seq<u8>, from: nat) -> Seq<(u8, u8)>
    decreases counts.len() - from,
{
    if from >= counts.len() {
        Seq::empty()
    } else if counts[from as int] > 0 {
        seq![(from as u8, counts[from as int])] + played_from(counts, from + 1)
    } else {
        played_from(counts, from + 1)
    }
}

/// A player's id, the low byte of the id that events carry.
#[derive(Debug, Clone, Copy, PartialEq, Eq, Structural, Hash, PartialOrd, Ord)]
pub struct UserId(pub u8);

impl From<u32> for UserId {
    fn from(num: u32) -> (r: UserId) {
        UserId((num & 255) as u8)
    }
}

impl vstd::std_specs::convert::FromSpecImpl<u32> for UserId {
    open spec fn obeys_from_spec() -> bool {
        true
    }

    open spec fn from_spec(v: u32) -> UserId {
        UserId((v & 255) as u8)
    }
}

/// The `player_spawn` event.
#[derive(Debug, Clone, PartialEq)]
pub struct PlayerSpawnEvent {
    pub user_id: u16,
    pub team: u16,
    pub class: u16,
}

/// The `player_death` event, as far as the summary reads it.
#[derive(Debug, Clone, PartialEq)]
pub struct PlayerDeathEvent {
    pub user_id: u16,
    pub attacker: u16,
    pub assister: u16,
    pub weapon: String,
}

/// A spawn of the summary.
#[derive(Debug, Clone, PartialEq)]
pub struct Spawn {
    pub user: UserId,
    pub class: Class,
    pub team: Team,
    pub tick: u32,
}

/// The spawn record of a spawn event.
pub open spec fn spawn_of(event: PlayerSpawnEvent, tick: u32) -> Spawn {
    Spawn {
        user: UserId((event.user_id % 256) as u8),
        class: class_of(event.class),
        team: team_of(event.team),
        tick,
    }
}

impl Spawn {
    pub fn from_event(event: &PlayerSpawnEvent, tick: u32) -> (r: Spawn)
        ensures
            r.user == UserId((event.user_id % 256) as u8),
            r.class == class_of(event.class),
            r.team == team_of(event.team),
            r.tick == tick,
            r == spawn_of(*event, tick),
    {
        Spawn {
            user: UserId((event.user_id % 256) as u8),
            class: Class::new(event.class),
            team: Team::new(event.team),
            tick,
        }
    }
}

/// A player as the user-info table describes it.
#[derive(Debug, Clone, PartialEq)]
pub struct UserInfo {
    pub name: String,
    pub user_id: UserId,
    pub steam_id: String,
    pub entity_id: EntityId,
}

/// A death of the summary. An assister id of 16384 or more means none.
#[derive(Debug, Clone, PartialEq)]
pub struct Death {
    pub weapon: String,
    pub victim: UserId,
    pub assister: Option<UserId>,
    pub killer: UserId,
    pub tick: u32,
}

/// The death record of a death event.
pub open spec fn death_of(event: PlayerDeathEvent, tick: u32) -> Death {
    Death {
        weapon: event.weapon,
        victim: UserId((event.user_id % 256) as u8),
        assister: if event.assister < 16 * 1024 {
            Some(UserId((event.assister % 256) as u8))
        } else {
            None::<UserId>
        },
        killer: UserId((event.attacker % 256) as u8),
        tick,
    }
}

impl Death {
    pub fn from_event(event: &PlayerDeathEvent, tick: u32) -> (r: Death)
        ensures
            r.assister == if event.assister < 16 * 1024 {
                Some(UserId((event.assister % 256) as u8))
            } else {
                None::<UserId>
            },
            r.tick == tick,
            r.killer == UserId((event.attacker % 256) as u8),
            r.weapon@ == event.weapon@,
            r == death_of(*event, tick),
            r.victim == UserId((event.user_id % 256) as u8),
    {
        let assister = if event.assister < (16 * 1024) {
            Some(UserId((event.assister % 256) as u8))
        } else {
            None
        };
        Death {
            assister,
            tick,
            killer: UserId((event.attacker % 256) as u8),
            weapon: event.weapon.clone(),
            victim: UserId((event.user_id % 256) as u8),
        }
    }
}

/// A player of the summary, with the classes they spawned as.
#[derive(Debug, PartialEq)]
pub struct UserState {
    pub classes: ClassList,
    pub name: String,
    pub user_id: UserId,
    pub steam_id: String,
    pub team: Team,
}

impl UserState {
    /// The state of a newly seen player: no spawns yet, no team.
    pub fn from_user(user: UserInfo) -> (r: UserState)
        ensures
            forall|i: int| 0 <= i < 10 ==> r.classes.0[i] == 0,
            r.team == Team::Other,
            r.name == user.name,
            r.user_id == user.user_id,
            r.steam_id == user.steam_id,
    {
        UserState {
            classes: ClassList::new(),
            team: Team::Other,
            name: user.name,
            user_id: user.user_id,
            steam_id: user.steam_id,
        }
    }
}

/// The `teamplay_round_win` event, as far as the summary reads it. The
/// round time is the IEEE-754 bit pattern of the seconds the round took.
#[derive(Debug, Clone, Copy, PartialEq, Eq, Structural)]
pub struct TeamPlayRoundWinEvent {
    pub team: u8,
    pub win_reason: u8,
    pub round_time: u32,
}

/// A finished round. `length` is the IEEE-754 bit pattern of its seconds.
#[derive(Debug, Clone, Copy, PartialEq, Eq, Structural)]
pub struct Round {
    pub winner: Team,
    pub length: u32,
    pub end_tick: u32,
}

/// The round record of a round-win event.
pub open spec fn round_of(event: TeamPlayRoundWinEvent, tick: u32) -> Round {
    Round { winner: team_of(event.team as u16), length: event.round_time, end_tick: tick }
}

impl Round {
    pub fn from_event(event: &TeamPlayRoundWinEvent, tick: u32) -> (r: Round)
        ensures
            r == round_of(*event, tick),
    {
        Round { winner: Team::new(event.team as u16), length: event.round_time, end_tick: tick }
    }
}

/// Win reason of a round that ran out of time; such rounds are not recorded.
pub const WIN_REASON_TIME_LIMIT: u8 = 6;

/// The game events that the summary reads.
#[derive(Debug, Clone, PartialEq)]
pub enum GameEvent {
    PlayerDeath(PlayerDeathEvent),
    PlayerSpawn(PlayerSpawnEvent),
    TeamPlayRoundWin(TeamPlayRoundWinEvent),
    Other,
}

/// The value of the first entry called `name`, if there is one.
pub open spec fn entry_value(
    entries: Seq<GameEventEntry>,
    values: Seq<GameEventValue>,
    name: Seq<char>,
) -> Option<GameEventValue>
    decreases entries.len(),
{
    if entries.len() == 0 || values.len() == 0 {
        None
    } else if entries[0].name@ == name {
        Some(values[0])
    } else {
        entry_value(entries.skip(1), values.skip(1), name)
    }
}

/// The short value of the entry called `name`.
pub open spec fn short_entry(def: GameEventDefinition, raw: RawGameEvent, name: Seq<char>) -> Option<u16> {
    match entry_value(def.entries@, raw.values@, name) {
        Some(GameEventValue::Short(v)) => Some(v),
        _ => None,
    }
}

/// The byte value of the entry called `name`.
pub open spec fn byte_entry(def: GameEventDefinition, raw: RawGameEvent, name: Seq<char>) -> Option<u8> {
    match entry_value(def.entries@, raw.values@, name) {
        Some(GameEventValue::Byte(v)) => Some(v),
        _ => None,
    }
}

/// The float value (as IEEE-754 bits) of the entry called `name`.
pub open spec fn float_entry(def: GameEventDefinition, raw: RawGameEvent, name: Seq<char>) -> Option<u32> {
    match entry_value(def.entries@, raw.values@, name) {
        Some(GameEventValue::Float(v)) => Some(v),
        _ => None,
    }
}

/// The text of the string entry called `name`.
pub open spec fn string_entry(def: GameEventDefinition, raw: RawGameEvent, name: Seq<char>) -> Option<Seq<char>> {
    match entry_value(def.entries@, raw.values@, name) {
        Some(GameEventValue::String(v)) => Some(v@),
        _ => None,
    }
}

/// Position of the first entry called `name` that has a value.
fn find_entry(def: &GameEventDefinition, raw: &RawGameEvent, name: &str) -> (r: Option<usize>)
    ensures
        match r {
            Some(i) => i < def.entries@.len() && i < raw.values@.len() && entry_value(
                def.entries@,
                raw.values@,
                name@,
            ) == Some(raw.values@[i as int]),
            None => entry_value(def.entries@, raw.values@, name@) is None,
        },
{
    let key = name.to_owned();
    let mut i: usize = 0;
    assert(def.entries@.skip(0) =~= def.entries@);
    assert(raw.values@.skip(0) =~= raw.values@);
    while i < def.entries.len() && i < raw.values.len()
        invariant
            i <= def.entries@.len(),
            i <= raw.values@.len(),
            key@ == name@,
            entry_value(def.entries@, raw.values@, name@) == entry_value(
                def.entries@.skip(i as int),
                raw.values@.skip(i as int),
                name@,
            ),
        decreases def.entries@.len() - i,
    {
        assert(def.entries@.skip(i as int).skip(1) =~= def.entries@.skip(i + 1));
        assert(raw.values@.skip(i as int).skip(1) =~= raw.values@.skip(i + 1));
        if def.entries[i].name == key {
            return Some(i);
        }
        i = i + 1;
    }
    None
}

fn read_short(def: &GameEventDefinition, raw: &RawGameEvent, name: &str) -> (r: Result<u16, ParseError>)
    ensures
        match short_entry(*def, *raw, name@) {
            Some(v) => r == Ok::<u16, ParseError>(v),
            None => r == Err::<u16, ParseError>(
                ParseError::MalformedGameEvent(GameEventError::MissingEntry),
            ),
        },
{
    match find_entry(def, raw, name) {
        Some(i) => match &raw.values[i] {
            GameEventValue::Short(v) => Ok(*v),
            _ => Err(ParseError::MalformedGameEvent(GameEventError::MissingEntry)),
        },
        None => Err(ParseError::MalformedGameEvent(GameEventError::MissingEntry)),
    }
}

fn read_byte(def: &GameEventDefinition, raw: &RawGameEvent, name: &str) -> (r: Result<u8, ParseError>)
    ensures
        match byte_entry(*def, *raw, name@) {
            Some(v) => r == Ok::<u8, ParseError>(v),
            None => r == Err::<u8, ParseError>(
                ParseError::MalformedGameEvent(GameEventError::MissingEntry),
            ),
        },
{
    match find_entry(def, raw, name) {
        Some(i) => match &raw.values[i] {
            GameEventValue::Byte(v) => Ok(*v),
            _ => Err(ParseError::MalformedGameEvent(GameEventError::MissingEntry)),
        },
        None => Err(ParseError::MalformedGameEvent(GameEventError::MissingEntry)),
    }
}

fn read_float(def: &GameEventDefinition, raw: &RawGameEvent, name: &str) -> (r: Result<u32, ParseError>)
    ensures
        match float_entry(*def, *raw, name@) {
            Some(v) => r == Ok::<u32, ParseError>(v),
            None => r == Err::<u32, ParseError>(
                ParseError::MalformedGameEvent(GameEventError::MissingEntry),
            ),
        },
{
    match find_entry(def, raw, name) {
        Some(i) => match &raw.values[i] {
            GameEventValue::Float(v) => Ok(*v),
            _ => Err(ParseError::MalformedGameEvent(GameEventError::MissingEntry)),
        },
        None => Err(ParseError::MalformedGameEvent(GameEventError::MissingEntry)),
    }
}

fn read_text(def: &GameEventDefinition, raw: &RawGameEvent, name: &str) -> (r: Result<String, ParseError>)
    ensures
        match string_entry(*def, *raw, name@) {
            Some(v) => r is Ok && r->Ok_0@ == v,
            None => r == Err::<String, ParseError>(
                ParseError::MalformedGameEvent(GameEventError::MissingEntry),
            ),
        },
{
    match find_entry(def, raw, name) {
        Some(i) => match &raw.values[i] {
            GameEventValue::String(v) => Ok(v.clone()),
            _ => Err(ParseError::MalformedGameEvent(GameEventError::MissingEntry)),
        },
        None => Err(ParseError::MalformedGameEvent(GameEventError::MissingEntry)),
    }
}

impl GameEvent {
    /// The typed form of a raw event, chosen by its definition's name:
    /// `player_death` (shorts `userid`, `attacker`, `assister`, string
    /// `weapon`), `player_spawn` (shorts `userid`, `team`, `class`) and
    /// `teamplay_round_win` (bytes `team`, `winreason`, float `round_time`);
    /// any other event is `Other`. A missing entry, or one of another kind,
    /// fails with `MissingEntry`.
    pub fn from_raw_event(definition: &GameEventDefinition, raw: &RawGameEvent) -> (r: Result<
        GameEvent,
        ParseError,
    >)
        ensures
            definition.name@ == "player_spawn"@ ==> match (
                short_entry(*definition, *raw, "userid"@),
                short_entry(*definition, *raw, "team"@),
                short_entry(*definition, *raw, "class"@),
            ) {
                (Some(user_id), Some(team), Some(class)) => r == Ok::<GameEvent, ParseError>(
                    GameEvent::PlayerSpawn(PlayerSpawnEvent { user_id, team, class }),
                ),
                _ => r == Err::<GameEvent, ParseError>(
                    ParseError::MalformedGameEvent(GameEventError::MissingEntry),
                ),
            },
            definition.name@ == "player_death"@ ==> match (
                short_entry(*definition, *raw, "userid"@),
                short_entry(*definition, *raw, "attacker"@),
                short_entry(*definition, *raw, "assister"@),
                string_entry(*definition, *raw, "weapon"@),
            ) {
                (Some(user_id), Some(attacker), Some(assister), Some(weapon)) => r is Ok
                    && r->Ok_0 is PlayerDeath && r->Ok_0->PlayerDeath_0.user_id == user_id
                    && r->Ok_0->PlayerDeath_0.attacker == attacker
                    && r->Ok_0->PlayerDeath_0.assister == assister
                    && r->Ok_0->PlayerDeath_0.weapon@ == weapon,
                _ => r == Err::<GameEvent, ParseError>(
                    ParseError::MalformedGameEvent(GameEventError::MissingEntry),
                ),
            },
            definition.name@ == "teamplay_round_win"@ ==> match (
                byte_entry(*definition, *raw, "team"@),
                byte_entry(*definition, *raw, "winreason"@),
                float_entry(*definition, *raw, "round_time"@),
            ) {
                (Some(team), Some(win_reason), Some(round_time)) => r == Ok::<GameEvent, ParseError>(
                    GameEvent::TeamPlayRoundWin(
                        TeamPlayRoundWinEvent { team, win_reason, round_time },
                    ),
                ),
                _ => r == Err::<GameEvent, ParseError>(
                    ParseError::MalformedGameEvent(GameEventError::MissingEntry),
                ),
            },
            definition.name@ != "player_spawn"@ && definition.name@ != "player_death"@
                && definition.name@ != "teamplay_round_win"@ ==> r == Ok::<GameEvent, ParseError>(
                GameEvent::Other,
            ),
    {
        proof {
            reveal_strlit("player_spawn");
            reveal_strlit("player_death");
            reveal_strlit("teamplay_round_win");
            assert("player_spawn"@[7] != "player_death"@[7]);
            assert("player_spawn"@.len() != "teamplay_round_win"@.len());
            assert("player_death"@.len() != "teamplay_round_win"@.len());
        }
        let spawn_name = "player_spawn".to_owned();
        let death_name = "player_death".to_owned();
        let win_name = "teamplay_round_win".to_owned();
        if definition.name == spawn_name {
            let user_id = match read_short(definition, raw, "userid") {
                Ok(v) => v,
                Err(e) => return Err(e),
            };
            let team = match read_short(definition, raw, "team") {
                Ok(v) => v,
                Err(e) => return Err(e),
            };
            let class = match read_short(definition, raw, "class") {
                Ok(v) => v,
                Err(e) => return Err(e),
            };
            Ok(GameEvent::PlayerSpawn(PlayerSpawnEvent { user_id, team, class }))
        } else if definition.name == death_name {
            let user_id = match read_short(definition, raw, "userid") {
                Ok(v) => v,
                Err(e) => return Err(e),
            };
            let attacker = match read_short(definition, raw, "attacker") {
                Ok(v) => v,
                Err(e) => return Err(e),
            };
            let assister = match read_short(definition, raw, "assister") {
                Ok(v) => v,
                Err(e) => return Err(e),
            };
            let weapon = match read_text(definition, raw, "weapon") {
                Ok(v) => v,
                Err(e) => return Err(e),
            };
            Ok(GameEvent::PlayerDeath(PlayerDeathEvent { user_id, attacker, assister, weapon }))
        } else if definition.name == win_name {
            let team = match read_byte(definition, raw, "team") {
                Ok(v) => v,
                Err(e) => return Err(e),
            };
            let win_reason = match read_byte(definition, raw, "winreason") {
                Ok(v) => v,
                Err(e) => return Err(e),
            };
            let round_time = match read_float(definition, raw, "round_time") {
                Ok(v) => v,
                Err(e) => return Err(e),
            };
            Ok(GameEvent::TeamPlayRoundWin(TeamPlayRoundWinEvent { team, win_reason, round_time }))
        } else {
            Ok(GameEvent::Other)
        }
    }
}

/// The user messages that the summary reads.
#[derive(Debug, Clone, PartialEq)]
pub enum UserMessage {
    SayText2(SayText2Message),
    Other,
}

/// Kind of a message of the demo.
#[derive(Debug, Clone, Copy, PartialEq, Eq, Structural)]
pub enum MessageType {
    GameEvent,
    UserMessage,
    Other,
}

/// A message of the demo, as far as the summary reads it.
#[derive(Debug, Clone, PartialEq)]
pub enum Message {
    GameEvent(GameEvent),
    UserMessage(UserMessage),
    Other,
}

/// Builds the match summary from the messages it is handed.
#[derive(Debug)]
pub struct Analyser {
    pub chat: Vec<ChatMassage>,
    pub users: HashMap<u8, UserInfo>,
    pub user_spawns: Vec<Spawn>,
    pub deaths: Vec<Death>,
    pub rounds: Vec<Round>,
    pub start_tick: u32,
    pub user_states: HashMap<u8, UserState>,
}

impl Analyser {
    /// An empty summary.
    pub fn new() -> (r: Analyser)
        ensures
            r.chat@.len() == 0,
            r.users@.len() == 0,
            r.user_spawns@.len() == 0,
            r.deaths@.len() == 0,
            r.rounds@.len() == 0,
            r.start_tick == 0,
            r.user_states@.len() == 0,
    {
        Analyser {
            chat: Vec::new(),
            users: HashMap::new(),
            user_spawns: Vec::new(),
            deaths: Vec::new(),
            rounds: Vec::new(),
            start_tick: 0,
            user_states: HashMap::new(),
        }
    }

    /// The summary reads game events and user messages only.
    pub fn does_handle(message_type: MessageType) -> (r: bool)
        ensures
            r == (message_type == MessageType::GameEvent || message_type
                == MessageType::UserMessage),
    {
        match message_type {
            MessageType::GameEvent | MessageType::UserMessage => true,
            _ => false,
        }
    }

    /// Records a game event: a death; a spawn, which also counts the class
    /// and sets the team of a known player; a round win, unless the round
    /// ran out of time.
    pub fn handle_event(&mut self, event: &GameEvent, tick: u32)
        ensures
            event_handled(*old(self), *final(self), *event, tick),
    {
        match event {
            GameEvent::PlayerDeath(e) => self.deaths.push(Death::from_event(e, tick)),
            GameEvent::PlayerSpawn(e) => {
                let spawn = Spawn::from_event(e, tick);
                match self.user_states.remove(&spawn.user.0) {
                    Some(state) => {
                        let mut classes = ClassList(state.classes.0);
                        classes.add_spawn(spawn.class);
                        self.user_states.insert(
                            spawn.user.0,
                            UserState {
                                classes,
                                name: state.name,
                                user_id: state.user_id,
                                steam_id: state.steam_id,
                                team: spawn.team,
                            },
                        );
                    },
                    None => {},
                }
                assert(self.user_states@.dom() =~= old(self).user_states@.dom());
                self.user_spawns.push(spawn);
            },
            GameEvent::TeamPlayRoundWin(e) => {
                if e.win_reason != WIN_REASON_TIME_LIMIT {
                    self.rounds.push(Round::from_event(e, tick));
                }
            },
            GameEvent::Other => {},
        }
    }

    /// Renames the player called `from` to `to`, in the player table and in
    /// the summary's player states. Where several share that name, the one
    /// with the lowest id is renamed.
    pub fn change_name(&mut self, from: String, to: String)
        ensures
            names_changed(*old(self), *final(self), from@, to),
    {
        rename_first_user(&mut self.users, &from, to.clone());
        rename_first_state(&mut self.user_states, &from, to);
    }

    /// Records a user message: a name change renames the player; any other
    /// chat message becomes a chat line.
    pub fn handle_user_message(&mut self, message: &UserMessage, tick: u32)
        ensures
            user_message_handled(*old(self), *final(self), *message, tick),
    {
        if let UserMessage::SayText2(text_message) = message {
            if text_message.kind == ChatMessageKind::NameChange {
                if let Some(from) = &text_message.from {
                    self.change_name(from.clone(), text_message.text.clone());
                }
            } else {
                let line = ChatMassage::from_message(text_message, tick);
                self.chat.push(line);
                assert(self.chat@.take(old(self).chat@.len() as int) =~= old(self).chat@);
            }
        }
    }

    /// Records a message; the first message's tick is the start tick.
    pub fn handle_message(&mut self, message: &Message, tick: u32)
        ensures
            match *message {
                Message::GameEvent(e) => event_handled(started(*old(self), tick), *final(self), e, tick),
                Message::UserMessage(m) => user_message_handled(
                    started(*old(self), tick),
                    *final(self),
                    m,
                    tick,
                ),
                Message::Other => *final(self) == started(*old(self), tick),
            },
    {
        if self.start_tick == 0 {
            self.start_tick = tick;
        }
        match message {
            Message::GameEvent(event) => self.handle_event(event, tick),
            Message::UserMessage(user_message) => self.handle_user_message(user_message, tick),
            Message::Other => {},
        }
    }

    /// Reads the extra data of a user-info entry (a 32-byte name, read as
    /// "Malformed Name" when it is not text; a 32-bit user id, of which the
    /// low byte is the player's id; a NUL-terminated steam id) and records
    /// the player; the entry's text is the entity id in decimal.
    pub fn parse_user_info(&mut self, text: &str, data: Vec<u8>) -> (r: Result<(), ParseError>)
        ensures
            r is Err ==> final(self).users@ == old(self).users@ && final(self).user_states@ == old(self).user_states@,
            r is Ok ==> match decimal_text(text@) {
                Some(v) => v > 0xffff_ffff ==> final(self).users@ == old(self).users@
                    && final(self).user_states@ == old(self).user_states@,
                None => final(self).users@ == old(self).users@ && final(self).user_states@ == old(self).user_states@,
            },
            r is Ok && data@.len() >= 36 ==> match decimal_text(text@) {
                Some(v) => v <= 0xffff_ffff ==> {
                    let uid = (bits_value(bytes_bits(data@).skip(256).take(32)) % 256) as u8;
                    final(self).users@ == old(self).users@ || (final(self).users@ == old(self).users@.insert(
                        uid,
                        final(self).users@[uid],
                    ) && final(self).users@[uid].entity_id == EntityId(v as u32)
                        && final(self).users@[uid].user_id == UserId(uid))
                },
                None => true,
            },
            final(self).chat@ == old(self).chat@,
            final(self).deaths@ == old(self).deaths@,
            final(self).start_tick == old(self).start_tick,
    {
        let ghost bits = bytes_bits(data@);
        proof {
            crate::bits::lemma_bytes_bits_len(data@);
        }
        let mut stream = Stream::from_bytes(data);
        let name = match read_fixed_string(&mut stream, 32) {
            Ok(n) => n,
            Err(_) => "Malformed Name".to_owned(),
        };
        let raw_id = match read_uint(&mut stream, 32) {
            Ok(v) => v,
            Err(e) => return Err(read_failure(e)),
        };
        let steam_id = match read_cstring(&mut stream) {
            Ok(v) => v,
            Err(e) => return Err(read_failure(e)),
        };
        proof {
            vstd::arithmetic::power2::lemma2_to64();
            crate::bits::lemma_bits_value_bound(bits.skip(256).take(32));
            if bits.len() >= 288 {
                assert(raw_id as nat == bits_value(bits.skip(256).take(32)));
            }
        }
        self.register_user(name, UserId((raw_id % 256) as u8), steam_id, EntityId::parse_decimal(text));
        Ok(())
    }

    /// Feeds a string-table entry to the summary: only user-info entries
    /// with text and more than 32 bytes of extra data describe a player.
    pub fn handle_string_entry(
        &mut self,
        table: &str,
        text: Option<&str>,
        extra_data: Option<(Vec<u8>, usize)>,
    )
        ensures
            !(table@ == "userinfo"@ && text is Some && match extra_data {
                Some((_, n)) => n > 32,
                None => false,
            })
                ==> final(self).users@ == old(self).users@ && final(self).user_states@ == old(self).user_states@,
            final(self).chat@ == old(self).chat@,
            final(self).deaths@ == old(self).deaths@,
            final(self).start_tick == old(self).start_tick,
    {
        let user_table = "userinfo".to_owned();
        let name = table.to_owned();
        if name == user_table {
            match (text, extra_data) {
                (Some(text), Some((data, byte_len))) => {
                    if byte_len > 32 {
                        let _ = self.parse_user_info(text, data);
                    }
                },
                _ => {},
            }
        }
    }

    /// Records a player of the user-info table. A player is taken only when
    /// the entry's text named an entity and the steam id is not empty; a
    /// new player starts with no spawns and no team.
    pub fn register_user(
        &mut self,
        name: String,
        user_id: UserId,
        steam_id: String,
        entity_id: Option<EntityId>,
    )
        ensures
            entity_id is Some && steam_id@.len() > 0 ==> {
                &&& final(self).users@ == old(self).users@.insert(
                    user_id.0,
                    UserInfo { name, user_id, steam_id, entity_id: entity_id->0 },
                )
                &&& final(self).user_states@.dom() == old(self).user_states@.dom().insert(user_id.0)
                &&& final(self).user_states@[user_id.0].name == name
                &&& final(self).user_states@[user_id.0].steam_id == steam_id
                &&& final(self).user_states@[user_id.0].user_id == user_id
                &&& final(self).user_states@[user_id.0].team == Team::Other
                &&& forall|i: int| 0 <= i < 10 ==> final(self).user_states@[user_id.0].classes.0[i] == 0
                &&& forall|k: u8| k != user_id.0 && old(self).user_states@.contains_key(k)
                    ==> final(self).user_states@[k] == old(self).user_states@[k]
            },
            !(entity_id is Some && steam_id@.len() > 0) ==> final(self).users@ == old(self).users@
                && final(self).user_states@ == old(self).user_states@,
            final(self).chat@ == old(self).chat@,
            final(self).deaths@ == old(self).deaths@,
            final(self).user_spawns@ == old(self).user_spawns@,
            final(self).rounds@ == old(self).rounds@,
            final(self).start_tick == old(self).start_tick,
    {
        match entity_id {
            Some(entity_id) => {
                let empty = String::new();
                assert(steam_id@.len() == 0 ==> steam_id@ =~= empty@);
                if !(steam_id == empty) {
                    self.user_states.insert(
                        user_id.0,
                        UserState {
                            classes: ClassList::new(),
                            name: name.clone(),
                            user_id,
                            steam_id: steam_id.clone(),
                            team: Team::Other,
                        },
                    );
                    self.users.insert(user_id.0, UserInfo { steam_id, user_id, name, entity_id });
                }
            },
            None => {},
        }
    }

    /// The summary: start tick, tick interval (IEEE-754 bits), chat, deaths,
    /// rounds and players.
    pub fn get_output(self, interval_per_tick: u32) -> (r: MatchState)
        ensures
            r.start_tick == self.start_tick,
            r.interval_per_tick == interval_per_tick,
            r.chat == self.chat,
            r.deaths == self.deaths,
            r.rounds == self.rounds,
            r.users == self.user_states,
    {
        MatchState {
            start_tick: self.start_tick,
            interval_per_tick,
            chat: self.chat,
            deaths: self.deaths,
            rounds: self.rounds,
            users: self.user_states,
        }
    }
}

/// Renames the player called `from` with the lowest id, if any.
fn rename_first_user(users: &mut HashMap<u8, UserInfo>, from: &String, to: String)
    ensures
        forall|k: u8|
            is_first_named_user(old(users)@, k, from@) ==> final(users)@ == old(users)@.insert(
                k,
                renamed_user(old(users)@[k], to),
            ),
        (forall|k: u8| old(users)@.contains_key(k) ==> old(users)@[k].name@ != from@) ==> final(users)@ == old(users)@,
{
    let mut k: u16 = 0;
    while k < 256
        invariant
            k <= 256,
            users@ == old(users)@,
            forall|j: u8|
                (j as u16) < k && old(users)@.contains_key(j) ==> old(users)@[j].name@ != from@,
        decreases 256 - k,
    {
        let id = k as u8;
        let found = match users.get(&id) {
            Some(u) => u.name == *from,
            None => false,
        };
        if found {
            assert(is_first_named_user(old(users)@, id, from@));
            assert forall|j: u8| #[trigger] is_first_named_user(old(users)@, j, from@) implies j
                == id by {
                if j > id {
                    assert(!is_first_named_user(old(users)@, j, from@));
                }
            }
            match users.remove(&id) {
                Some(u) => {
                    users.insert(
                        id,
                        UserInfo {
                            name: to,
                            user_id: u.user_id,
                            steam_id: u.steam_id,
                            entity_id: u.entity_id,
                        },
                    );
                    assert(users@ =~= old(users)@.insert(id, renamed_user(old(users)@[id], to)));
                },
                None => {},
            }
            return;
        }
        k = k + 1;
    }
}

/// Renames the player state called `from` with the lowest id, if any.
fn rename_first_state(states: &mut HashMap<u8, UserState>, from: &String, to: String)
    ensures
        forall|k: u8|
            is_first_named_state(old(states)@, k, from@) ==> final(states)@ == old(states)@.insert(
                k,
                renamed_state(old(states)@[k], to),
            ),
        (forall|k: u8| old(states)@.contains_key(k) ==> old(states)@[k].name@ != from@) ==> final(states)@ == old(states)@,
{
    let mut k: u16 = 0;
    while k < 256
        invariant
            k <= 256,
            states@ == old(states)@,
            forall|j: u8|
                (j as u16) < k && old(states)@.contains_key(j) ==> old(states)@[j].name@ != from@,
        decreases 256 - k,
    {
        let id = k as u8;
        let found = match states.get(&id) {
            Some(u) => u.name == *from,
            None => false,
        };
        if found {
            assert(is_first_named_state(old(states)@, id, from@));
            assert forall|j: u8| #[trigger] is_first_named_state(old(states)@, j, from@) implies j
                == id by {
                if j > id {
                    assert(!is_first_named_state(old(states)@, j, from@));
                }
            }
            match states.remove(&id) {
                Some(u) => {
                    states.insert(
                        id,
                        UserState {
                            classes: u.classes,
                            name: to,
                            user_id: u.user_id,
                            steam_id: u.steam_id,
                            team: u.team,
                        },
                    );
                    assert(states@ =~= old(states)@.insert(id, renamed_state(old(states)@[id], to)));
                },
                None => {},
            }
            return;
        }
        k = k + 1;
    }
}

/// `k` holds the player called `name` with the lowest id.
pub open spec fn is_first_named_user(m: Map<u8, UserInfo>, k: u8, name: Seq<char>) -> bool {
    &&& m.contains_key(k)
    &&& m[k].name@ == name
    &&& forall|j: u8| j < k && m.contains_key(j) ==> m[j].name@ != name
}

/// `k` holds the player state called `name` with the lowest id.
pub open spec fn is_first_named_state(m: Map<u8, UserState>, k: u8, name: Seq<char>) -> bool {
    &&& m.contains_key(k)
    &&& m[k].name@ == name
    &&& forall|j: u8| j < k && m.contains_key(j) ==> m[j].name@ != name
}

/// A player under a new name.
pub open spec fn renamed_user(u: UserInfo, to: String) -> UserInfo {
    UserInfo { name: to, ..u }
}

/// A player state under a new name.
pub open spec fn renamed_state(u: UserState, to: String) -> UserState {
    UserState { name: to, ..u }
}

/// A chat line made from a message at a tick.
pub open spec fn chat_line_of(line: ChatMassage, m: SayText2Message, tick: u32) -> bool {
    &&& line.kind == m.kind
    &&& line.from@ == match m.from {
        Some(f) => f@,
        None => Seq::<char>::empty(),
    }
    &&& line.text@ == m.text@
    &&& line.tick == tick
}

/// The match summary. `interval_per_tick` is the IEEE-754 bit pattern of
/// the seconds per tick.
#[derive(Debug)]
pub struct MatchState {
    pub chat: Vec<ChatMassage>,
    pub users: HashMap<u8, UserState>,
    pub deaths: Vec<Death>,
    pub rounds: Vec<Round>,
    pub start_tick: u32,
    pub interval_per_tick: u32,
}

/// What recording a game event does to the summary.
pub open spec fn event_handled(old: Analyser, new: Analyser, event: GameEvent, tick: u32) -> bool {
    &&& match event {
        GameEvent::PlayerDeath(e) => new.deaths@ == old.deaths@.push(
            death_of(e, tick),
        ),
        _ => new.deaths@ == old.deaths@
    }
    &&& match event {
        GameEvent::PlayerSpawn(e) => new.user_spawns@ == old.user_spawns@.push(spawn_of(e, tick)),
        _ => new.user_spawns@ == old.user_spawns@
    }
    &&& match event {
        GameEvent::TeamPlayRoundWin(e) => new.rounds@ == if e.win_reason
            != WIN_REASON_TIME_LIMIT {
            old.rounds@.push(round_of(e, tick))
        } else {
            old.rounds@
        },
        _ => new.rounds@ == old.rounds@
    }
    &&& match event {
        GameEvent::PlayerSpawn(e) => {
            let id = spawn_of(e, tick).user.0;
            &&& new.user_states@.dom() == old.user_states@.dom()
            &&& old.user_states@.contains_key(id) ==> {
                let before = old.user_states@[id];
                let after = new.user_states@[id];
                &&& after.team == team_of(e.team)
                &&& after.name == before.name
                &&& after.steam_id == before.steam_id
                &&& after.user_id == before.user_id
                &&& after.classes.0[class_index(class_of(e.class))] == if before.classes.0[class_index(class_of(e.class))] == 255 {
                    255u8
                } else {
                    (before.classes.0[class_index(class_of(e.class))] + 1) as u8
                }
                &&& forall|i: int|
                    0 <= i < 10 && i != class_index(class_of(e.class))
                        ==> after.classes.0[i] == before.classes.0[i]
            }
            &&& forall|k: u8| k != id ==> new.user_states@.contains_key(k)
                ==> new.user_states@[k] == old.user_states@[k]
        },
        _ => new.user_states@ == old.user_states@
    }
    &&& new.chat@ == old.chat@
    &&& new.users@ == old.users@
    &&& new.start_tick == old.start_tick
}

/// What renaming the player called `from` to `to` does to the summary.
pub open spec fn names_changed(old: Analyser, new: Analyser, from: Seq<char>, to: String) -> bool {
    &&& forall|k: u8|
        is_first_named_user(old.users@, k, from) ==> new.users@ == old.users@.insert(k, renamed_user(old.users@[k], to))
    &&& (forall|k: u8|
        old.users@.contains_key(k) ==> old.users@[k].name@ != from) ==> new.users@ == old.users@
    &&& forall|k: u8|
        is_first_named_state(old.user_states@, k, from) ==> new.user_states@
            == old.user_states@.insert(k, renamed_state(old.user_states@[k], to))
    &&& (forall|k: u8|
        old.user_states@.contains_key(k) ==> old.user_states@[k].name@
            != from) ==> new.user_states@ == old.user_states@
    &&& new.chat@ == old.chat@
    &&& new.deaths@ == old.deaths@
    &&& new.user_spawns@ == old.user_spawns@
    &&& new.rounds@ == old.rounds@
    &&& new.start_tick == old.start_tick
}

/// What recording a user message does to the summary.
pub open spec fn user_message_handled(old: Analyser, new: Analyser, message: UserMessage, tick: u32) -> bool {
    &&& match message {
        UserMessage::SayText2(m) => if m.kind == ChatMessageKind::NameChange {
            &&& new.chat@ == old.chat@
            &&& m.from is None ==> new.users@ == old.users@
                && new.user_states@ == old.user_states@
            &&& m.from matches Some(f) ==> names_changed(old, new, f@, m.text)
        } else {
            &&& new.chat@.len() == old.chat@.len() + 1
            &&& new.chat@.take(old.chat@.len() as int) == old.chat@
            &&& chat_line_of(new.chat@.last(), m, tick)
            &&& new.users@ == old.users@
            &&& new.user_states@ == old.user_states@
        },
        UserMessage::Other => new.chat@ == old.chat@ && new.users@
            == old.users@ && new.user_states@ == old.user_states@
    }
    &&& new.deaths@ == old.deaths@
    &&& new.user_spawns@ == old.user_spawns@
    &&& new.rounds@ == old.rounds@
    &&& new.start_tick == old.start_tick
}

/// The summary once a message at `tick` has been seen: the first message's
/// tick is the start tick.
pub open spec fn started(a: Analyser, tick: u32) -> Analyser {
    Analyser { start_tick: if a.start_tick == 0 { tick } else { a.start_tick }, ..a }
}

} // verus!
