//! Game-event schema and the decoders of event lists and event messages.
use vstd::prelude::*;
use crate::state::ParserState;
use crate::bits::{
    ascii_cstring,
    read_cstring, read_failure, read_sub_stream, read_uint, skip_bits, stream_bits,
    take_uint, uint_bits, lemma_take_uint_round_trip, GameEventError, ParseError, Stream,
};

verus! {

/// Kind of one entry of a game event; `End` (tag 0) ends an entry list on the wire.
#[derive(Debug, Clone, Copy, PartialEq, Eq, Structural)]
pub enum GameEventValueType {
    End,
    String,
    Float,
    Long,
    Short,
    Byte,
    Boolean,
    Local,
}

/// The kind that a 3-bit tag on the wire stands for.
pub open spec fn value_type_of_tag(tag: nat) -> GameEventValueType {
    if tag == 0 {
        GameEventValueType::End
    } else if tag == 1 {
        GameEventValueType::String
    } else if tag == 2 {
        GameEventValueType::Float
    } else if tag == 3 {
        GameEventValueType::Long
    } else if tag == 4 {
        GameEventValueType::Short
    } else if tag == 5 {
        GameEventValueType::Byte
    } else if tag == 6 {
        GameEventValueType::Boolean
    } else {
        GameEventValueType::Local
    }
}

/// One decoded event value. A `Float` is held as its IEEE-754 bit pattern.
#[derive(Debug, Clone, PartialEq)]
pub enum GameEventValue {
    String(String),
    Float(u32),
    Long(u32),
    Short(u16),
    Byte(u8),
    Boolean(bool),
    Local,
}

/// Identifier of an event type, 9 bits on the wire.
#[derive(Debug, Clone, Copy, PartialEq, Eq, Hash, PartialOrd, Ord)]
pub struct GameEventTypeId(pub u16);

impl From<GameEventTypeId> for usize {
    fn from(id: GameEventTypeId) -> (r: usize) {
        id.0 as usize
    }
}

impl vstd::std_specs::convert::FromSpecImpl<GameEventTypeId> for usize {
    open spec fn obeys_from_spec() -> bool {
        true
    }

    open spec fn from_spec(id: GameEventTypeId) -> usize {
        id.0 as usize
    }
}

/// A named entry of an event definition.
#[derive(Debug, Clone, PartialEq)]
pub struct GameEventEntry {
    pub name: String,
    pub kind: GameEventValueType,
}

/// The layout of one event type: its entries in wire order.
#[derive(Debug, Clone, PartialEq)]
pub struct GameEventDefinition {
    pub id: GameEventTypeId,
    pub name: String,
    pub entries: Vec<GameEventEntry>,
}

/// An event as it came off the wire: its type and one value per entry.
#[derive(Debug, Clone, PartialEq)]
pub struct RawGameEvent {
    pub event_type: GameEventTypeId,
    pub values: Vec<GameEventValue>,
}

/// Number of bits that a value of a fixed-width kind takes.
pub open spec fn value_width(kind: GameEventValueType) -> nat {
    match kind {
        GameEventValueType::Float => 32,
        GameEventValueType::Long => 32,
        GameEventValueType::Short => 16,
        GameEventValueType::Byte => 8,
        GameEventValueType::Boolean => 1,
        _ => 0,
    }
}

/// The value of a fixed-width kind whose bits read as `v`.
pub open spec fn value_of_bits(kind: GameEventValueType, v: nat) -> GameEventValue {
    match kind {
        GameEventValueType::Float => GameEventValue::Float(v as u32),
        GameEventValueType::Long => GameEventValue::Long(v as u32),
        GameEventValueType::Short => GameEventValue::Short(v as u16),
        GameEventValueType::Byte => GameEventValue::Byte(v as u8),
        GameEventValueType::Boolean => GameEventValue::Boolean(v == 1),
        _ => GameEventValue::Local,
    }
}

/// Whether a value is of the given kind.
pub open spec fn value_has_kind(v: GameEventValue, kind: GameEventValueType) -> bool {
    match v {
        GameEventValue::String(_) => kind == GameEventValueType::String,
        GameEventValue::Float(_) => kind == GameEventValueType::Float,
        GameEventValue::Long(_) => kind == GameEventValueType::Long,
        GameEventValue::Short(_) => kind == GameEventValueType::Short,
        GameEventValue::Byte(_) => kind == GameEventValueType::Byte,
        GameEventValue::Boolean(_) => kind == GameEventValueType::Boolean,
        GameEventValue::Local => kind == GameEventValueType::Local,
    }
}

/// Decoding of a value of a fixed-width kind (every kind but `String` and `End`).
pub open spec fn take_event_value(b: Seq<bool>, kind: GameEventValueType) -> Option<
    (GameEventValue, Seq<bool>),
> {
    match take_uint(b, value_width(kind)) {
        Some((v, rest)) => Some((value_of_bits(kind, v), rest)),
        None => None,
    }
}

/// The wire bits of a value of a fixed-width kind.
pub open spec fn event_value_bits(v: GameEventValue) -> Seq<bool> {
    match v {
        GameEventValue::Float(x) => uint_bits(x as nat, 32),
        GameEventValue::Long(x) => uint_bits(x as nat, 32),
        GameEventValue::Short(x) => uint_bits(x as nat, 16),
        GameEventValue::Byte(x) => uint_bits(x as nat, 8),
        GameEventValue::Boolean(x) => uint_bits(if x { 1 } else { 0 }, 1),
        _ => Seq::empty(),
    }
}

/// The kind of a value.
pub open spec fn kind_of_value(v: GameEventValue) -> GameEventValueType {
    match v {
        GameEventValue::String(_) => GameEventValueType::String,
        GameEventValue::Float(_) => GameEventValueType::Float,
        GameEventValue::Long(_) => GameEventValueType::Long,
        GameEventValue::Short(_) => GameEventValueType::Short,
        GameEventValue::Byte(_) => GameEventValueType::Byte,
        GameEventValue::Boolean(_) => GameEventValueType::Boolean,
        GameEventValue::Local => GameEventValueType::Local,
    }
}

/// Encoding an event value of a fixed-width kind and decoding it against
/// that kind gives the value back, with the stream after it untouched.
pub proof fn lemma_event_value_round_trip(v: GameEventValue, rest: Seq<bool>)
    requires
        !(v is String),
    ensures
        take_event_value(event_value_bits(v) + rest, kind_of_value(v)) == Some((v, rest)),
{
    vstd::arithmetic::power2::lemma2_to64();
    match v {
        GameEventValue::Float(x) => lemma_take_uint_round_trip(x as nat, 32, rest),
        GameEventValue::Long(x) => lemma_take_uint_round_trip(x as nat, 32, rest),
        GameEventValue::Short(x) => lemma_take_uint_round_trip(x as nat, 16, rest),
        GameEventValue::Byte(x) => lemma_take_uint_round_trip(x as nat, 8, rest),
        GameEventValue::Boolean(x) => lemma_take_uint_round_trip(if x { 1 } else { 0 }, 1, rest),
        _ => {
            assert(rest.take(0) =~= Seq::<bool>::empty());
            assert(Seq::<bool>::empty() + rest =~= rest);
            assert(rest.skip(0) =~= rest);
        },
    }
}

} // verus!

verus! {

/// Reads the 3-bit kind tag of an event entry.
pub fn read_value_type(s: &mut Stream) -> (r: Result<GameEventValueType, ParseError>)
    ensures
        stream_bits(*final(s)).len() <= stream_bits(*old(s)).len(),
        match r {
            Ok(k) => match take_uint(stream_bits(*old(s)), 3) {
                Some((t, rest)) => k == value_type_of_tag(t) && stream_bits(*final(s)) == rest,
                None => false,
            },
            Err(e) => take_uint(stream_bits(*old(s)), 3) is None && e == ParseError::NotEnoughData,
        },
{
    let tag = match read_uint(s, 3) {
        Ok(v) => v,
        Err(e) => return Err(read_failure(e)),
    };
    let kind = if tag == 0 {
        GameEventValueType::End
    } else if tag == 1 {
        GameEventValueType::String
    } else if tag == 2 {
        GameEventValueType::Float
    } else if tag == 3 {
        GameEventValueType::Long
    } else if tag == 4 {
        GameEventValueType::Short
    } else if tag == 5 {
        GameEventValueType::Byte
    } else if tag == 6 {
        GameEventValueType::Boolean
    } else {
        GameEventValueType::Local
    };
    Ok(kind)
}

/// Reads one value of the entry's kind.
pub fn read_event_value(s: &mut Stream, definition: &GameEventEntry) -> (r: Result<
    GameEventValue,
    ParseError,
>)
    ensures
        definition.kind == GameEventValueType::End ==> r == Err::<GameEventValue, ParseError>(
            ParseError::MalformedGameEvent(GameEventError::NoneValue),
        ) && stream_bits(*final(s)) == stream_bits(*old(s)),
        definition.kind == GameEventValueType::String ==> match ascii_cstring(stream_bits(*old(s))) {
            Some((text, rest)) => r is Ok && r->Ok_0 is String && r->Ok_0->String_0@ == text
                && stream_bits(*final(s)) == rest,
            None => true,
        },
        definition.kind == GameEventValueType::String ==> (r is Ok ==> r->Ok_0 is String)
            && stream_bits(*final(s)) == stream_bits(*old(s)).skip(
            stream_bits(*old(s)).len() - stream_bits(*final(s)).len(),
        ) && stream_bits(*final(s)).len() <= stream_bits(*old(s)).len(),
        definition.kind != GameEventValueType::End && definition.kind != GameEventValueType::String
            ==> match take_event_value(stream_bits(*old(s)), definition.kind) {
            Some((v, rest)) => r == Ok::<GameEventValue, ParseError>(v) && stream_bits(*final(s))
                == rest,
            None => r == Err::<GameEventValue, ParseError>(ParseError::NotEnoughData),
        },
{
    proof {
        assert(stream_bits(*s).take(0) =~= Seq::<bool>::empty());
        assert(stream_bits(*s).skip(0) =~= stream_bits(*s));
        vstd::arithmetic::power2::lemma2_to64();
    }
    let width: usize = match definition.kind {
        GameEventValueType::End => {
            return Err(ParseError::MalformedGameEvent(GameEventError::NoneValue));
        },
        GameEventValueType::String => {
            return match read_cstring(s) {
                Ok(text) => Ok(GameEventValue::String(text)),
                Err(e) => Err(read_failure(e)),
            };
        },
        GameEventValueType::Local => {
            return Ok(GameEventValue::Local);
        },
        GameEventValueType::Float => 32,
        GameEventValueType::Long => 32,
        GameEventValueType::Short => 16,
        GameEventValueType::Byte => 8,
        GameEventValueType::Boolean => 1,
    };
    let v = match read_uint(s, width) {
        Ok(v) => v,
        Err(e) => return Err(read_failure(e)),
    };
    proof {
        let b = stream_bits(*old(s)).take(width as int);
        assert(v < vstd::arithmetic::power2::pow2(width as nat)) by {
            crate::bits::lemma_bits_value_bound(b);
        }
    }
    Ok(
        match definition.kind {
            GameEventValueType::Float => GameEventValue::Float(v),
            GameEventValueType::Long => GameEventValue::Long(v),
            GameEventValueType::Short => GameEventValue::Short(v as u16),
            GameEventValueType::Byte => GameEventValue::Byte(v as u8),
            _ => GameEventValue::Boolean(v == 1),
        },
    )
}

} // verus!

verus! {

/// What a definition stands for: its id, its name and its (name, kind)
/// entries.
pub struct DefinitionModel {
    pub id: nat,
    pub name: Seq<char>,
    pub entries: Seq<(Seq<char>, GameEventValueType)>,
}

/// The model of a definition.
pub open spec fn definition_model(d: GameEventDefinition) -> DefinitionModel {
    DefinitionModel {
        id: d.id.0 as nat,
        name: d.name@,
        entries: d.entries@.map_values(|e: GameEventEntry| (e.name@, e.kind)),
    }
}

/// The models of a list of definitions.
pub open spec fn definition_models(ds: Seq<GameEventDefinition>) -> Seq<DefinitionModel> {
    ds.map_values(|d: GameEventDefinition| definition_model(d))
}

/// Decoding of the entries of a definition: a 3-bit kind tag; for any kind
/// but the end, a NUL-terminated name follows and another entry; the end
/// tag closes the list. `None` where a name is not NUL-terminated ASCII,
/// which this model leaves open.
pub open spec fn take_entries(b: Seq<bool>) -> Option<
    Result<(Seq<(Seq<char>, GameEventValueType)>, Seq<bool>), ParseError>,
>
    decreases b.len(),
{
    match take_uint(b, 3) {
        None => Some(Err(ParseError::NotEnoughData)),
        Some((tag, r)) => {
            let k = value_type_of_tag(tag);
            if k == GameEventValueType::End {
                Some(Ok((Seq::empty(), r)))
            } else {
                match ascii_cstring(r) {
                    None => None,
                    Some((name, r2)) => if r2.len() < b.len() {
                        match take_entries(r2) {
                            None => None,
                            Some(Err(e)) => Some(Err(e)),
                            Some(Ok((es, r3))) => Some(Ok((seq![(name, k)] + es, r3))),
                        }
                    } else {
                        None
                    },
                }
            }
        },
    }
}

/// Decoding of a definition: a 9-bit id, a NUL-terminated name, then its
/// entries.
pub open spec fn take_definition(b: Seq<bool>) -> Option<
    Result<(DefinitionModel, Seq<bool>), ParseError>,
> {
    match take_uint(b, 9) {
        None => Some(Err(ParseError::NotEnoughData)),
        Some((id, r)) => match ascii_cstring(r) {
            None => None,
            Some((name, r2)) => match take_entries(r2) {
                None => None,
                Some(Err(e)) => Some(Err(e)),
                Some(Ok((es, r3))) => Some(Ok((DefinitionModel { id, name, entries: es }, r3))),
            },
        },
    }
}

/// Decoding of `n` definitions, one after another.
pub open spec fn take_definitions(b: Seq<bool>, n: nat) -> Option<
    Result<(Seq<DefinitionModel>, Seq<bool>), ParseError>,
>
    decreases n,
{
    if n == 0 {
        Some(Ok((Seq::empty(), b)))
    } else {
        match take_definition(b) {
            None => None,
            Some(Err(e)) => Some(Err(e)),
            Some(Ok((d, r))) => match take_definitions(r, (n - 1) as nat) {
                None => None,
                Some(Err(e)) => Some(Err(e)),
                Some(Ok((ds, r2))) => Some(Ok((seq![d] + ds, r2))),
            },
        }
    }
}

impl GameEventDefinition {
    /// Reads one definition: a 9-bit id, a NUL-terminated name, then entries
    /// (a 3-bit kind and a name each) up to the kind that ends the list.
    pub fn read(s: &mut Stream) -> (r: Result<GameEventDefinition, ParseError>)
        ensures
            stream_bits(*final(s)).len() <= stream_bits(*old(s)).len(),
            match take_definition(stream_bits(*old(s))) {
                Some(Ok((m, rest))) => r is Ok && definition_model(r->Ok_0) == m
                    && stream_bits(*final(s)) == rest,
                Some(Err(e)) => r == Err::<GameEventDefinition, ParseError>(e),
                None => true,
            },
            r is Ok ==> forall|i: int|
                0 <= i < r->Ok_0.entries@.len() ==> #[trigger] r->Ok_0.entries@[i].kind
                    != GameEventValueType::End,
    {
        let id = match read_uint(s, 9) {
            Ok(v) => v,
            Err(e) => return Err(read_failure(e)),
        };
        proof {
            crate::bits::lemma_bits_value_bound(stream_bits(*old(s)).take(9));
            vstd::arithmetic::power2::lemma2_to64();
        }
        let ghost after_id = stream_bits(*s);
        let name = match read_cstring(s) {
            Ok(v) => v,
            Err(e) => return Err(read_failure(e)),
        };
        let ghost start = stream_bits(*s);
        let mut entries: Vec<GameEventEntry> = Vec::new();
        proof {
            match take_entries(start) {
                Some(Ok((xs, r))) => {
                    assert(entry_pairs(entries@) + xs =~= xs);
                },
                _ => {},
            }
        }
        loop
            invariant
                stream_bits(*s).len() <= stream_bits(*old(s)).len(),
                forall|i: int|
                    0 <= i < entries@.len() ==> #[trigger] entries@[i].kind
                        != GameEventValueType::End,
                id < 512,
                take_uint(stream_bits(*old(s)), 9) == Some((id as nat, after_id)),
                ascii_cstring(after_id) is Some ==> ascii_cstring(after_id) == Some((name@, start)),
                take_entries(start) is Some ==> take_entries(start) == after_entries(
                    entry_pairs(entries@),
                    take_entries(stream_bits(*s)),
                ),
            decreases stream_bits(*s).len(),
        {
            let ghost before = stream_bits(*s);
            let ghost done = entry_pairs(entries@);
            let kind = match read_value_type(s) {
                Ok(k) => k,
                Err(e) => return Err(e),
            };
            if kind == GameEventValueType::End {
                assert(done + Seq::<(Seq<char>, GameEventValueType)>::empty() =~= done);
                return Ok(GameEventDefinition { id: GameEventTypeId(id as u16), name, entries });
            }
            let entry_name = match read_cstring(s) {
                Ok(v) => v,
                Err(e) => return Err(read_failure(e)),
            };
            entries.push(GameEventEntry { name: entry_name, kind });
            proof {
                assert(entry_pairs(entries@) =~= done.push((entry_name@, kind)));
                match take_entries(stream_bits(*s)) {
                    Some(Ok((xs, r))) => {
                        assert(done + (seq![(entry_name@, kind)] + xs) =~= entry_pairs(entries@) + xs);
                    },
                    _ => {},
                }
            }
        }
    }
}

/// The (name, kind) pairs of a list of entries.
pub open spec fn entry_pairs(es: Seq<GameEventEntry>) -> Seq<(Seq<char>, GameEventValueType)> {
    es.map_values(|e: GameEventEntry| (e.name@, e.kind))
}

/// Prefixes the entries decoded so far to what the rest decodes to.
pub open spec fn after_entries(
    done: Seq<(Seq<char>, GameEventValueType)>,
    rest: Option<Result<(Seq<(Seq<char>, GameEventValueType)>, Seq<bool>), ParseError>>,
) -> Option<Result<(Seq<(Seq<char>, GameEventValueType)>, Seq<bool>), ParseError>> {
    match rest {
        None => None,
        Some(Err(e)) => Some(Err(e)),
        Some(Ok((xs, r))) => Some(Ok((done + xs, r))),
    }
}

/// Prefixes the definitions decoded so far to what the rest decodes to.
pub open spec fn after_definitions(
    done: Seq<DefinitionModel>,
    rest: Option<Result<(Seq<DefinitionModel>, Seq<bool>), ParseError>>,
) -> Option<Result<(Seq<DefinitionModel>, Seq<bool>), ParseError>> {
    match rest {
        None => None,
        Some(Err(e)) => Some(Err(e)),
        Some(Ok((xs, r))) => Some(Ok((done + xs, r))),
    }
}

/// A decoded game-event message.
#[derive(Debug, PartialEq)]
pub struct GameEventMessage {
    pub event: RawGameEvent,
}

/// A decoded list of event definitions.
#[derive(Debug, PartialEq)]
pub struct GameEventListMessage {
    pub event_list: Vec<GameEventDefinition>,
}

impl GameEventListMessage {
    /// Reads a 9-bit count and a 20-bit length, then exactly `count`
    /// definitions out of the next `length` bits. The stream ends up just
    /// past those bits.
    pub fn read(s: &mut Stream) -> (r: Result<GameEventListMessage, ParseError>)
        ensures
            r is Ok ==> match take_uint(stream_bits(*old(s)), 9) {
                Some((count, r1)) => match take_uint(r1, 20) {
                    Some((length, r2)) => length <= r2.len() && stream_bits(*final(s))
                        == r2.skip(length as int) && r->Ok_0.event_list@.len() == count,
                    None => false,
                },
                None => false,
            },
            match take_uint(stream_bits(*old(s)), 9) {
                Some((count, r1)) => match take_uint(r1, 20) {
                    Some((length, r2)) => if length <= r2.len() {
                        match take_definitions(r2.take(length as int), count) {
                            Some(Ok((ds, _))) => r is Ok && definition_models(r->Ok_0.event_list@)
                                == ds,
                            Some(Err(e)) => r == Err::<GameEventListMessage, ParseError>(e),
                            None => true,
                        }
                    } else {
                        r == Err::<GameEventListMessage, ParseError>(ParseError::NotEnoughData)
                    },
                    None => r == Err::<GameEventListMessage, ParseError>(ParseError::NotEnoughData),
                },
                None => r == Err::<GameEventListMessage, ParseError>(ParseError::NotEnoughData),
            },
    {
        let count = match read_uint(s, 9) {
            Ok(v) => v,
            Err(e) => return Err(read_failure(e)),
        };
        let ghost r1 = stream_bits(*s);
        let length = match read_uint(s, 20) {
            Ok(v) => v,
            Err(e) => return Err(read_failure(e)),
        };
        let ghost r2 = stream_bits(*s);
        let mut data = match read_sub_stream(s, length as usize) {
            Ok(d) => d,
            Err(e) => return Err(read_failure(e)),
        };
        let ghost body = stream_bits(data);
        let ghost after = stream_bits(*s);
        let mut event_list: Vec<GameEventDefinition> = Vec::new();
        let mut i: u32 = 0;
        proof {
            match take_definitions(body, count as nat) {
                Some(Ok((xs, r))) => {
                    assert(definition_models(event_list@) + xs =~= xs);
                },
                _ => {},
            }
        }
        while i < count
            invariant
                i <= count,
                event_list@.len() == i,
                stream_bits(*s) == after,
                take_uint(stream_bits(*old(s)), 9) == Some((count as nat, r1)),
                take_uint(r1, 20) == Some((length as nat, r2)),
                length <= r2.len(),
                body == r2.take(length as int),
                after == r2.skip(length as int),
                take_definitions(body, count as nat) is Some ==> take_definitions(body, count as nat)
                    == after_definitions(
                    definition_models(event_list@),
                    take_definitions(stream_bits(data), (count - i) as nat),
                ),
            decreases count - i,
        {
            let ghost done = definition_models(event_list@);
            let definition = match GameEventDefinition::read(&mut data) {
                Ok(d) => d,
                Err(e) => return Err(e),
            };
            event_list.push(definition);
            proof {
                assert(definition_models(event_list@) =~= done.push(definition_model(definition)));
                match take_definitions(stream_bits(data), (count - i - 1) as nat) {
                    Some(Ok((xs, r))) => {
                        assert(done + (seq![definition_model(definition)] + xs) =~= definition_models(event_list@) + xs);
                    },
                    _ => {},
                }
            }
            i = i + 1;
        }
        proof {
            assert(definition_models(event_list@) + Seq::<DefinitionModel>::empty() =~= definition_models(event_list@));
        }
        Ok(GameEventListMessage { event_list })
    }
}

/// The bits of an event message's body: an 11-bit length, then that many
/// bits. Yields the body and what follows it.
pub open spec fn take_event_body(b: Seq<bool>) -> Option<(Seq<bool>, Seq<bool>)> {
    match take_uint(b, 11) {
        Some((length, r1)) => if length <= r1.len() {
            Some((r1.take(length as int), r1.skip(length as int)))
        } else {
            None
        },
        None => None,
    }
}

impl GameEventMessage {
    /// Decodes one event message: an 11-bit length carves the body; the body
    /// holds a 9-bit event type id, then one value per entry of that type's
    /// definition. The stream ends up just past the body.
    #[verifier::spinoff_prover]
    #[verifier::rlimit(60)]
    pub fn parse(s: &mut Stream, state: &ParserState) -> (r: Result<GameEventMessage, ParseError>)
        ensures
            take_event_body(stream_bits(*old(s))) is None ==> r == Err::<
                GameEventMessage,
                ParseError,
            >(ParseError::NotEnoughData),
            match take_event_body(stream_bits(*old(s))) {
                Some((body, rest)) => {
                    &&& r is Ok ==> stream_bits(*final(s)) == rest
                    &&& match take_uint(body, 9) {
                        Some((id, _)) => {
                            &&& (id >= state.event_definitions@.len() <==> r == Err::<
                                GameEventMessage,
                                ParseError,
                            >(ParseError::MalformedGameEvent(GameEventError::UnknownType)))
                            &&& r is Ok ==> event_matches_definition(
                                r->Ok_0.event,
                                id,
                                state.event_definitions@[id as int],
                            )
                            &&& id < state.event_definitions@.len() ==> match take_event_values(
                                body.skip(9),
                                entry_kinds(state.event_definitions@[id as int].entries@),
                            ) {
                                Some(Ok((vs, _))) => r is Ok && event_value_models(
                                    r->Ok_0.event.values@,
                                ) == vs,
                                Some(Err(e)) => r == Err::<GameEventMessage, ParseError>(e),
                                None => true,
                            }
                        },
                        None => r == Err::<GameEventMessage, ParseError>(
                            ParseError::NotEnoughData,
                        ),
                    }
                },
                None => true,
            },
    {
        let length = match read_uint(s, 11) {
            Ok(v) => v,
            Err(e) => return Err(read_failure(e)),
        };
        let mut data = match read_sub_stream(s, length as usize) {
            Ok(d) => d,
            Err(e) => return Err(read_failure(e)),
        };
        let ghost body = stream_bits(data);
        let event_type = match read_uint(&mut data, 9) {
            Ok(v) => v,
            Err(e) => return Err(read_failure(e)),
        };
        proof {
            crate::bits::lemma_bits_value_bound(body.take(9));
            vstd::arithmetic::power2::lemma2_to64();
        }
        let ghost rest = stream_bits(*s);
        if event_type as usize >= state.event_definitions.len() {
            return Err(ParseError::MalformedGameEvent(GameEventError::UnknownType));
        }
        let definition = &state.event_definitions[event_type as usize];
        proof {
            let kinds = entry_kinds(definition.entries@);
            assert(kinds.skip(0) =~= kinds);
            match take_event_values(stream_bits(data), kinds) {
                Some(Ok((xs, r))) => {
                    assert(Seq::<EventValueModel>::empty() + xs =~= xs);
                },
                _ => {},
            }
        }
        proof {
            assert(entry_kinds(definition.entries@).take(0) =~= Seq::<GameEventValueType>::empty());
        }
        let mut values: Vec<GameEventValue> = Vec::new();
        let mut i: usize = 0;
        while i < definition.entries.len()
            invariant
                i <= definition.entries@.len(),
                values@.len() == i,
                forall|k: int|
                    0 <= k < i ==> value_has_kind(
                        #[trigger] values@[k],
                        definition.entries@[k].kind,
                    ),
                stream_bits(*s) == rest,
                take_event_body(stream_bits(*old(s))) == Some((body, rest)),
                take_uint(body, 9) matches Some((id, _)) && id == event_type,
                event_type < state.event_definitions@.len(),
                event_type < 512,
                *definition == state.event_definitions@[event_type as int],
                take_event_values(body.skip(9), entry_kinds(definition.entries@)) is Some ==> take_event_values(body.skip(9), entry_kinds(definition.entries@)) == after_values(
                    event_value_models(values@),
                    take_event_values(stream_bits(data), entry_kinds(definition.entries@).skip(i as int)),
                ),
            decreases definition.entries@.len() - i,
        {
            let ghost mid = stream_bits(data);
            let ghost prev = values@;
            let value = match read_event_value(&mut data, &definition.entries[i]) {
                Ok(v) => v,
                Err(e) => {
                    return Err(
                        match e {
                            ParseError::MalformedGameEvent(GameEventError::NoneValue) => {
                                ParseError::MalformedGameEvent(GameEventError::NoneValue)
                            },
                            _ => ParseError::NotEnoughData,
                        },
                    )
                },
            };
            values.push(value);
            proof {
                let kinds = entry_kinds(definition.entries@);
                let done = event_value_models(prev);
                assert(event_value_models(values@) =~= done.push(event_value_model(value)));
                assert(kinds.skip(i as int).skip(1) =~= kinds.skip(i + 1));
                assert(kinds.skip(i as int)[0] == definition.entries@[i as int].kind);
                match take_event_values(stream_bits(data), kinds.skip(i + 1)) {
                    Some(Ok((xs, r))) => {
                        assert(done + (seq![event_value_model(value)] + xs) =~= event_value_models(values@) + xs);
                    },
                    _ => {},
                }
            }
            i = i + 1;
        }
        proof {
            assert(entry_kinds(definition.entries@).take(i as int) =~= entry_kinds(definition.entries@));
            assert(event_value_models(values@) + Seq::<EventValueModel>::empty() =~= event_value_models(values@));
            assert(entry_kinds(definition.entries@).skip(i as int) =~= Seq::<GameEventValueType>::empty());
            let kinds = entry_kinds(definition.entries@);
            assert(take_event_values(stream_bits(data), kinds.skip(i as int)) == Some(
                Ok::<(Seq<EventValueModel>, Seq<bool>), ParseError>((Seq::empty(), stream_bits(data))),
            ));
            match take_event_values(body.skip(9), kinds) {
                Some(Ok((vs, _))) => {
                    assert(vs =~= event_value_models(values@));
                },
                Some(Err(_)) => {
                    assert(false);
                },
                None => {},
            }
        }
        Ok(
            GameEventMessage {
                event: RawGameEvent { event_type: GameEventTypeId(event_type as u16), values },
            },
        )
    }

    /// Skips one event message by its 11-bit length.
    pub fn parse_skip(s: &mut Stream) -> (r: Result<(), ParseError>)
        ensures
            r is Ok <==> take_event_body(stream_bits(*old(s))) is Some,
            r is Err ==> r == Err::<(), ParseError>(ParseError::NotEnoughData),
            r is Ok ==> match take_event_body(stream_bits(*old(s))) {
                Some((_, rest)) => stream_bits(*final(s)) == rest,
                None => false,
            },
    {
        let length = match read_uint(s, 11) {
            Ok(v) => v,
            Err(e) => return Err(read_failure(e)),
        };
        match skip_bits(s, length as usize) {
            Ok(()) => Ok(()),
            Err(e) => Err(read_failure(e)),
        }
    }
}

/// What an event value stands for: a string by its text, any other value
/// as it is.
pub enum EventValueModel {
    Text(Seq<char>),
    Fixed(GameEventValue),
}

/// The model of an event value.
pub open spec fn event_value_model(v: GameEventValue) -> EventValueModel {
    match v {
        GameEventValue::String(t) => EventValueModel::Text(t@),
        _ => EventValueModel::Fixed(v),
    }
}

/// The models of a list of event values.
pub open spec fn event_value_models(vs: Seq<GameEventValue>) -> Seq<EventValueModel> {
    vs.map_values(|v: GameEventValue| event_value_model(v))
}

/// Decoding of one value per kind, back to back. `None` where a string is
/// not NUL-terminated ASCII, which this model leaves open.
pub open spec fn take_event_values(b: Seq<bool>, kinds: Seq<GameEventValueType>) -> Option<
    Result<(Seq<EventValueModel>, Seq<bool>), ParseError>,
>
    decreases kinds.len(),
{
    if kinds.len() == 0 {
        Some(Ok((Seq::empty(), b)))
    } else {
        let k = kinds[0];
        let step: Option<Result<(EventValueModel, Seq<bool>), ParseError>> = if k
            == GameEventValueType::End {
            Some(Err(ParseError::MalformedGameEvent(GameEventError::NoneValue)))
        } else if k == GameEventValueType::String {
            match ascii_cstring(b) {
                Some((t, r)) => Some(Ok((EventValueModel::Text(t), r))),
                None => None,
            }
        } else {
            match take_event_value(b, k) {
                Some((v, r)) => Some(Ok((EventValueModel::Fixed(v), r))),
                None => Some(Err(ParseError::NotEnoughData)),
            }
        };
        match step {
            None => None,
            Some(Err(e)) => Some(Err(e)),
            Some(Ok((m, r))) => match take_event_values(r, kinds.skip(1)) {
                None => None,
                Some(Err(e)) => Some(Err(e)),
                Some(Ok((ms, r2))) => Some(Ok((seq![m] + ms, r2))),
            },
        }
    }
}

/// Prefixes the values decoded so far to what the rest decodes to.
pub open spec fn after_values(
    done: Seq<EventValueModel>,
    rest: Option<Result<(Seq<EventValueModel>, Seq<bool>), ParseError>>,
) -> Option<Result<(Seq<EventValueModel>, Seq<bool>), ParseError>> {
    match rest {
        None => None,
        Some(Err(e)) => Some(Err(e)),
        Some(Ok((xs, r))) => Some(Ok((done + xs, r))),
    }
}

/// The kinds of a definition's entries, in order.
pub open spec fn entry_kinds(entries: Seq<GameEventEntry>) -> Seq<GameEventValueType> {
    entries.map_values(|e: GameEventEntry| e.kind)
}

/// An event decoded against a definition: it carries the type id and one
/// value of the declared kind per entry, in order.
pub open spec fn event_matches_definition(
    event: RawGameEvent,
    id: nat,
    definition: GameEventDefinition,
) -> bool {
    &&& event.event_type.0 == id
    &&& event.values@.len() == definition.entries@.len()
    &&& forall|k: int|
        0 <= k < event.values@.len() ==> value_has_kind(
            #[trigger] event.values@[k],
            definition.entries@[k].kind,
        )
}

} // verus!
