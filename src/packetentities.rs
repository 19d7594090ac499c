//! The packet-entities delta decoder.
use vstd::prelude::*;
use crate::bits::{
    read_bit_var, read_bool, read_failure, read_sub_stream, read_uint, skip_bits, stream_bits,
    stream_from_bytes, take_uint, ParseError, Stream,
};
use crate::bits::{bytes_bits, take_ubitvar};
use crate::sendprop::{
    count_bits, ceil_log2, model_of, take_value, SendProp, SendPropValue, SendTable, ValueModel,
};
use crate::state::{ParserState, ServerClass};

verus! {

broadcast use vstd::std_specs::hash::group_hash_axioms;

/// Identifier of an entity slot, 11 bits on the wire.
#[derive(Debug, Clone, Copy, PartialEq, Eq, Structural, Hash, PartialOrd, Ord)]
pub struct EntityId(pub u32);

impl From<u32> for EntityId {
    fn from(num: u32) -> (r: EntityId) {
        EntityId(num)
    }
}

impl vstd::std_specs::convert::FromSpecImpl<u32> for EntityId {
    open spec fn obeys_from_spec() -> bool {
        true
    }

    open spec fn from_spec(v: u32) -> EntityId {
        EntityId(v)
    }
}

/// `std::num::ParseIntError`, carried opaquely.
#[verifier::external_type_specification]
#[verifier::external_body]
pub struct ExParseIntError(std::num::ParseIntError);

/// Value of a run of decimal digits.
pub open spec fn decimal_value(d: Seq<char>) -> nat
    decreases d.len(),
{
    if d.len() == 0 {
        0
    } else {
        decimal_value(d.drop_last()) * 10 + (d.last() as nat - '0' as nat) as nat
    }
}

/// The number that a text in `u32`'s decimal syntax (an optional `+`, then
/// at least one digit) stands for, if it has that syntax.
pub open spec fn decimal_text(s: Seq<char>) -> Option<nat> {
    let d = if s.len() > 0 && s[0] == '+' { s.skip(1) } else { s };
    if d.len() > 0 && forall|i: int| 0 <= i < d.len() ==> '0' <= #[trigger] d[i] <= '9' {
        Some(decimal_value(d))
    } else {
        None
    }
}

/// Relies on `u32::from_str`: a decimal number with an optional `+`,
/// rejected when it has another syntax or does not fit in 32 bits.
#[verifier::external_body]
fn parse_u32(s: &str) -> (r: Result<u32, std::num::ParseIntError>)
    ensures
        match decimal_text(s@) {
            Some(v) => if v <= 0xffff_ffff {
                r == Ok::<u32, std::num::ParseIntError>(v as u32)
            } else {
                r is Err
            },
            None => r is Err,
        },
{
    <u32 as std::str::FromStr>::from_str(s)
}

impl std::str::FromStr for EntityId {
    type Err = std::num::ParseIntError;

    fn from_str(s: &str) -> (r: Result<EntityId, std::num::ParseIntError>)
        ensures
            match decimal_text(s@) {
                Some(v) => if v <= 0xffff_ffff {
                    r == Ok::<EntityId, std::num::ParseIntError>(EntityId(v as u32))
                } else {
                    r is Err
                },
                None => r is Err,
            },
    {
        match parse_u32(s) {
            Ok(v) => Ok(EntityId(v)),
            Err(e) => Err(e),
        }
    }
}

impl EntityId {
    /// The entity id written in decimal in `s`.
    pub fn parse_decimal(s: &str) -> (r: Option<EntityId>)
        ensures
            match decimal_text(s@) {
                Some(v) => if v <= 0xffff_ffff {
                    r == Some(EntityId(v as u32))
                } else {
                    r is None
                },
                None => r is None,
            },
    {
        match parse_u32(s) {
            Ok(v) => Some(EntityId(v)),
            Err(_) => None,
        }
    }
}

/// Visibility transition of an entity in one frame; 2 bits on the wire.
#[derive(Debug, Clone, Copy, PartialEq, Eq, Structural)]
pub enum PVS {
    Preserve,
    Leave,
    Enter,
    Delete,
}

/// A decoded packet-entities frame.
#[derive(Debug, PartialEq)]
pub struct PacketEntitiesMessage {
    pub entities: Vec<PacketEntity>,
    pub removed_entities: Vec<EntityId>,
    pub max_entries: u16,
    pub delta: Option<u32>,
    pub base_line: u8,
    pub updated_base_line: bool,
}

/// One entity as a frame describes it.
#[derive(Debug, PartialEq)]
pub struct PacketEntity {
    pub server_class: ServerClass,
    pub entity_index: EntityId,
    pub props: Vec<SendProp>,
    pub in_pvs: bool,
    pub pvs: PVS,
    pub serial_number: u32,
    pub delay: Option<u32>,
}

/// No two props share a definition.
pub open spec fn props_unique(props: Seq<SendProp>) -> bool {
    forall|i: int, j: int|
        0 <= i < j < props.len() ==> #[trigger] props[i].index != #[trigger] props[j].index
}

/// A prop list after one update: the first prop with the same definition is
/// replaced, or the update is appended when there is none.
pub open spec fn apply_one(props: Seq<SendProp>, p: SendProp) -> Seq<SendProp>
    decreases props.len(),
{
    if props.len() == 0 {
        seq![p]
    } else if props[0].index == p.index {
        seq![p] + props.skip(1)
    } else {
        seq![props[0]] + apply_one(props.skip(1), p)
    }
}

/// A prop list after a list of updates, taken in order.
pub open spec fn apply_all(props: Seq<SendProp>, updates: Seq<SendProp>) -> Seq<SendProp>
    decreases updates.len(),
{
    if updates.len() == 0 {
        props
    } else {
        apply_all(apply_one(props, updates[0]), updates.skip(1))
    }
}

proof fn lemma_apply_one_at(props: Seq<SendProp>, p: SendProp, j: int)
    requires
        0 <= j < props.len(),
        props[j].index == p.index,
        forall|k: int| 0 <= k < j ==> props[k].index != p.index,
    ensures
        apply_one(props, p) == props.update(j, p),
    decreases props.len(),
{
    if j == 0 {
        assert(seq![p] + props.skip(1) =~= props.update(0, p));
    } else {
        lemma_apply_one_at(props.skip(1), p, j - 1);
        assert(seq![props[0]] + props.skip(1).update(j - 1, p) =~= props.update(j, p));
    }
}

proof fn lemma_apply_one_absent(props: Seq<SendProp>, p: SendProp)
    requires
        forall|k: int| 0 <= k < props.len() ==> props[k].index != p.index,
    ensures
        apply_one(props, p) == props.push(p),
    decreases props.len(),
{
    if props.len() == 0 {
        assert(seq![p] =~= props.push(p));
    } else {
        lemma_apply_one_absent(props.skip(1), p);
        assert(seq![props[0]] + props.skip(1).push(p) =~= props.push(p));
    }
}

/// One update keeps a prop list free of repeated definitions.
pub proof fn lemma_apply_one_unique(props: Seq<SendProp>, p: SendProp)
    requires
        props_unique(props),
    ensures
        props_unique(apply_one(props, p)),
{
    if exists|j: int| 0 <= j < props.len() && props[j].index == p.index {
        let j = choose|j: int| 0 <= j < props.len() && props[j].index == p.index;
        lemma_apply_one_at(props, p, j);
        let r = props.update(j, p);
        assert forall|a: int, b: int| 0 <= a < b < r.len() implies #[trigger] r[a].index
            != #[trigger] r[b].index by {
            assert(props[a].index != props[b].index);
        }
    } else {
        lemma_apply_one_absent(props, p);
        let r = props.push(p);
        assert forall|a: int, b: int| 0 <= a < b < r.len() implies #[trigger] r[a].index
            != #[trigger] r[b].index by {
            if b < props.len() {
                assert(props[a].index != props[b].index);
            }
        }
    }
}

/// Applying updates never leaves two props with one definition: if the
/// entity's props had none, neither does the result, whatever the updates.
pub proof fn lemma_apply_all_unique(props: Seq<SendProp>, updates: Seq<SendProp>)
    requires
        props_unique(props),
    ensures
        props_unique(apply_all(props, updates)),
    decreases updates.len(),
{
    if updates.len() > 0 {
        lemma_apply_one_unique(props, updates[0]);
        lemma_apply_all_unique(apply_one(props, updates[0]), updates.skip(1));
    }
}

impl PacketEntity {
    /// Position of the first prop with the given definition.
    pub fn get_prop_by_definition(&self, index: usize) -> (r: Option<usize>)
        ensures
            match r {
                Some(j) => j < self.props@.len() && self.props@[j as int].index == index
                    && forall|k: int| 0 <= k < j ==> self.props@[k].index != index,
                None => forall|k: int|
                    0 <= k < self.props@.len() ==> self.props@[k].index != index,
            },
    {
        let mut j: usize = 0;
        while j < self.props.len()
            invariant
                j <= self.props@.len(),
                forall|k: int| 0 <= k < j ==> self.props@[k].index != index,
            decreases self.props@.len() - j,
        {
            if self.props[j].index == index {
                return Some(j);
            }
            j = j + 1;
        }
        None
    }

    /// Applies updates in order: each replaces the prop with the same
    /// definition, or is appended when there is none.
    pub fn apply_update(&mut self, props: Vec<SendProp>)
        ensures
            final(self).props@ == apply_all(old(self).props@, props@),
            final(self).server_class == old(self).server_class,
            final(self).entity_index == old(self).entity_index,
            final(self).in_pvs == old(self).in_pvs,
            final(self).pvs == old(self).pvs,
            final(self).serial_number == old(self).serial_number,
            final(self).delay == old(self).delay,
            props_unique(old(self).props@) ==> props_unique(final(self).props@),
    {
        let mut updates = props;
        while updates.len() > 0
            invariant
                apply_all(self.props@, updates@) == apply_all(old(self).props@, props@),
                self.server_class == old(self).server_class,
                self.entity_index == old(self).entity_index,
                self.in_pvs == old(self).in_pvs,
                self.pvs == old(self).pvs,
                self.serial_number == old(self).serial_number,
                self.delay == old(self).delay,
            decreases updates@.len(),
        {
            let ghost before = self.props@;
            let ghost ups = updates@;
            let prop = updates.remove(0);
            assert(updates@ =~= ups.skip(1));
            match self.get_prop_by_definition(prop.index) {
                Some(j) => {
                    proof {
                        lemma_apply_one_at(before, prop, j as int);
                    }
                    self.props.set(j, prop);
                },
                None => {
                    proof {
                        lemma_apply_one_absent(before, prop);
                    }
                    self.props.push(prop);
                },
            }
        }
        proof {
            if props_unique(old(self).props@) {
                lemma_apply_all_unique(old(self).props@, props@);
            }
        }
    }
}

/// Prop indices rise strictly along the list.
pub open spec fn indices_increasing(props: Seq<SendProp>) -> bool {
    forall|i: int, j: int| 0 <= i < j < props.len() ==> #[trigger] props[i].index < #[trigger] props[j].index
}

/// Strictly rising indices never repeat a definition.
pub proof fn lemma_increasing_unique(props: Seq<SendProp>)
    requires
        indices_increasing(props),
    ensures
        props_unique(props),
{
    assert forall|i: int, j: int| 0 <= i < j < props.len() implies #[trigger] props[i].index
        != #[trigger] props[j].index by {
        assert(props[i].index < props[j].index);
    }
}

/// The index of a prop gap that ran past the table, as it is reported.
pub open spec fn reported_index(index: nat) -> u64 {
    if index > 0xffff_ffff_ffff_ffff {
        0xffff_ffff_ffff_ffff
    } else {
        index as u64
    }
}

/// Decoding of a prop update list from `b`, the next index counting from
/// `next`: while a continuation bit is set, a ubitvar gap `diff` gives the
/// index `next + diff`, which must lie in the table, then that prop's value
/// follows; a clear bit ends the list. Yields (index, value) pairs and the
/// bits after the final clear bit.
pub open spec fn take_updates(b: Seq<bool>, table: SendTable, next: nat) -> Result<
    (Seq<(int, ValueModel)>, Seq<bool>),
    ParseError,
>
    decreases b.len(),
{
    if b.len() == 0 {
        Err(ParseError::NotEnoughData)
    } else if !b[0] {
        Ok((Seq::empty(), b.skip(1)))
    } else {
        match take_ubitvar(b.skip(1)) {
            None => Err(ParseError::NotEnoughData),
            Some((diff, r)) => {
                let index = next + diff;
                if index >= table.flattened_props@.len() {
                    Err(
                        ParseError::PropIndexOutOfBounds {
                            index: reported_index(index),
                            prop_count: table.flattened_props@.len() as usize,
                        },
                    )
                } else {
                    match take_value(table.flattened_props@[index as int], r) {
                        Err(e) => Err(e),
                        Ok((m, r2)) => if r2.len() < b.len() {
                            match take_updates(r2, table, index + 1) {
                                Ok((ps, r3)) => Ok((seq![(index as int, m)] + ps, r3)),
                                Err(e) => Err(e),
                            }
                        } else {
                            Err(ParseError::InvalidEncoding)
                        },
                    }
                }
            },
        }
    }
}

/// Prefixes the entries decoded so far to what the rest decodes to.
pub open spec fn after_updates(
    done: Seq<(int, ValueModel)>,
    rest: Result<(Seq<(int, ValueModel)>, Seq<bool>), ParseError>,
) -> Result<(Seq<(int, ValueModel)>, Seq<bool>), ParseError> {
    match rest {
        Ok((xs, r)) => Ok((done + xs, r)),
        Err(e) => Err(e),
    }
}

/// The (index, value) pairs of a prop list.
pub open spec fn props_model(props: Seq<SendProp>) -> Seq<(int, ValueModel)> {
    props.map_values(|p: SendProp| (p.index as int, model_of(p.value)))
}

/// The first table of the given name.
pub open spec fn find_table(tables: Seq<SendTable>, name: Seq<char>) -> Option<SendTable>
    decreases tables.len(),
{
    if tables.len() == 0 {
        None
    } else if tables[0].name@ == name {
        Some(tables[0])
    } else {
        find_table(tables.skip(1), name)
    }
}

/// Looks up a send table by name.
pub fn get_send_table<'a>(state: &'a ParserState, table: &String) -> (r: Result<&'a SendTable, ParseError>)
    ensures
        match find_table(state.send_tables@, table@) {
            Some(t) => r is Ok && *r->Ok_0 == t && state.send_tables@.contains(t),
            None => r is Err && r->Err_0 == ParseError::UnknownSendTable(*table),
        },
{
    let mut i: usize = 0;
    assert(state.send_tables@.skip(0) =~= state.send_tables@);
    while i < state.send_tables.len()
        invariant
            i <= state.send_tables@.len(),
            find_table(state.send_tables@, table@) == find_table(
                state.send_tables@.skip(i as int),
                table@,
            ),
        decreases state.send_tables@.len() - i,
    {
        assert(state.send_tables@.skip(i as int).skip(1) =~= state.send_tables@.skip(i + 1));
        if state.send_tables[i].name == *table {
            assert(state.send_tables@.skip(i as int)[0] == state.send_tables@[i as int]);
            return Ok(&state.send_tables[i]);
        }
        i = i + 1;
    }
    Err(ParseError::UnknownSendTable(table.clone()))
}

/// A prop-less entity of a live entity's class, for an update or a leave.
pub fn get_entity_for_update(state: &ParserState, entity_index: EntityId, pvs: PVS) -> (r: Result<
    PacketEntity,
    ParseError,
>)
    ensures
        match r {
            Ok(e) => state.entity_classes@.contains_key(entity_index.0) && e.server_class
                == state.entity_classes@[entity_index.0] && e.entity_index == entity_index
                && e.props@.len() == 0 && !e.in_pvs && e.pvs == pvs && e.serial_number == 0
                && e.delay is None,
            Err(e) => !state.entity_classes@.contains_key(entity_index.0) && e
                == ParseError::UnknownEntity(entity_index.0),
        },
{
    match state.entity_classes.get(&entity_index.0) {
        Some(server_class) => Ok(
            PacketEntity {
                server_class: server_class.duplicate(),
                entity_index,
                props: Vec::new(),
                in_pvs: false,
                pvs,
                serial_number: 0,
                delay: None,
            },
        ),
        None => Err(ParseError::UnknownEntity(entity_index.0)),
    }
}

/// A copy of a prop list: the same definitions and values, in order.
pub fn copy_props(props: &Vec<SendProp>) -> (r: Vec<SendProp>)
    ensures
        props_model(r@) == props_model(props@),
{
    let mut out: Vec<SendProp> = Vec::new();
    let mut i: usize = 0;
    while i < props.len()
        invariant
            i <= props@.len(),
            out@.len() == i,
            forall|k: int| 0 <= k < i ==> #[trigger] out@[k].index == props@[k].index
                && model_of(out@[k].value) == model_of(props@[k].value),
        decreases props@.len() - i,
    {
        out.push(SendProp { index: props[i].index, value: props[i].value.copy() });
        i = i + 1;
    }
    assert(props_model(out@) =~= props_model(props@));
    out
}

/// What an entering entity is decoded to: its class index, its serial
/// number and its starting props.
pub struct EnterModel {
    pub class_index: nat,
    pub serial: nat,
    pub props: Seq<(int, ValueModel)>,
}

/// The starting props of an entering entity of `class`: the instance
/// baseline of the chosen slot when that holds the entity, else the class's
/// static baseline read as an update list against `table` when there is
/// one, else none.
pub open spec fn enter_start(
    state: &ParserState,
    slot: usize,
    id: u32,
    class_id: u16,
    table: SendTable,
) -> Result<Seq<(int, ValueModel)>, ParseError> {
    let instance = state.instance_baselines[slot as int]@;
    if instance.contains_key(id) {
        Ok(props_model(instance[id]@))
    } else if state.static_baselines@.contains_key(class_id) {
        match take_updates(bytes_bits(state.static_baselines@[class_id]@), table, 0) {
            Ok((ps, _)) => Ok(ps),
            Err(e) => Err(e),
        }
    } else {
        Ok(Seq::empty())
    }
}

/// Decoding of an entering entity: a class index of
/// `ceil(log2(class count)) + 1` bits (at most 32), which must name a
/// class; a 10-bit serial number; the class's send table must be known;
/// then the starting props.
pub open spec fn take_enter(b: Seq<bool>, state: &ParserState, slot: usize, id: u32) -> Result<
    (EnterModel, Seq<bool>),
    ParseError,
> {
    let n = ceil_log2(state.server_classes@.len() as nat) + 1;
    if n > 32 {
        Err(ParseError::InvalidEncoding)
    } else {
        match take_uint(b, n) {
            None => Err(ParseError::NotEnoughData),
            Some((ci, r1)) => if ci >= state.server_classes@.len() {
                Err(ParseError::UnknownServerClass(ci as usize))
            } else {
                let class = state.server_classes@[ci as int];
                match take_uint(r1, 10) {
                    None => Err(ParseError::NotEnoughData),
                    Some((serial, r2)) => match find_table(state.send_tables@, class.data_table@) {
                        None => Err(ParseError::UnknownSendTable(class.data_table)),
                        Some(t) => match enter_start(state, slot, id, class.id, t) {
                            Ok(ps) => Ok((EnterModel { class_index: ci, serial, props: ps }, r2)),
                            Err(e) => Err(e),
                        },
                    },
                }
            },
        }
    }
}

/// The instance baseline that an entering entity would start from, if any,
/// has no repeated definition.
pub open spec fn baseline_unique(state: &ParserState, slot: usize, id: u32) -> bool {
    let instance = state.instance_baselines[slot as int]@;
    instance.contains_key(id) ==> props_unique(instance[id]@)
}

/// Lists with the same definition indices repeat a definition alike.
proof fn lemma_same_indices_unique(a: Seq<SendProp>, b: Seq<SendProp>)
    requires
        props_model(a) == props_model(b),
        props_unique(b),
    ensures
        props_unique(a),
{
    assert forall|i: int, j: int| 0 <= i < j < a.len() implies #[trigger] a[i].index
        != #[trigger] a[j].index by {
        assert(props_model(a).len() == a.len());
        assert(props_model(b).len() == b.len());
        assert(props_model(a)[i].0 == a[i].index as int);
        assert(props_model(a)[j].0 == a[j].index as int);
        assert(props_model(b)[i].0 == b[i].index as int);
        assert(props_model(b)[j].0 == b[j].index as int);
        assert(b[i].index != b[j].index);
    }
}

/// An optional 32-bit value: a presence bit, then the value if present.
pub open spec fn take_optional_u32(b: Seq<bool>) -> Option<(Option<u32>, Seq<bool>)> {
    if b.len() == 0 {
        None
    } else if !b[0] {
        Some((None, b.skip(1)))
    } else {
        match take_uint(b.skip(1), 32) {
            Some((v, rest)) => Some((Some(v as u32), rest)),
            None => None,
        }
    }
}

/// The fields of a packet-entities header.
pub struct EntitiesHeader {
    pub max_entries: nat,
    pub delta: Option<u32>,
    pub base_line: nat,
    pub updated_entries: nat,
    pub length: nat,
    pub updated_base_line: bool,
}

/// The header of a packet-entities message: 11-bit `max_entries`, optional
/// 32-bit `delta`, 1-bit `base_line`, 11-bit `updated_entries`, 20-bit body
/// `length`, 1-bit `updated_base_line`; then the bits after it.
pub open spec fn take_entities_header(b: Seq<bool>) -> Option<(EntitiesHeader, Seq<bool>)> {
    match take_uint(b, 11) {
        Some((max_entries, r1)) => match take_optional_u32(r1) {
            Some((delta, r2)) => match take_uint(r2, 1) {
                Some((base_line, r3)) => match take_uint(r3, 11) {
                    Some((updated_entries, r4)) => match take_uint(r4, 20) {
                        Some((length, r5)) => if r5.len() == 0 {
                            None
                        } else {
                            Some(
                                (
                                    EntitiesHeader {
                                        max_entries,
                                        delta,
                                        base_line,
                                        updated_entries,
                                        length,
                                        updated_base_line: r5[0],
                                    },
                                    r5.skip(1),
                                ),
                            )
                        },
                        None => None,
                    },
                    None => None,
                },
                None => None,
            },
            None => None,
        },
        None => None,
    }
}

/// A prop list's model after one update, as `apply_one` does on props.
pub open spec fn apply_one_model(props: Seq<(int, ValueModel)>, p: (int, ValueModel)) -> Seq<
    (int, ValueModel),
>
    decreases props.len(),
{
    if props.len() == 0 {
        seq![p]
    } else if props[0].0 == p.0 {
        seq![p] + props.skip(1)
    } else {
        seq![props[0]] + apply_one_model(props.skip(1), p)
    }
}

/// A prop list's model after a list of updates, taken in order.
pub open spec fn apply_all_model(props: Seq<(int, ValueModel)>, updates: Seq<(int, ValueModel)>) -> Seq<
    (int, ValueModel),
>
    decreases updates.len(),
{
    if updates.len() == 0 {
        props
    } else {
        apply_all_model(apply_one_model(props, updates[0]), updates.skip(1))
    }
}

proof fn lemma_apply_one_model(props: Seq<SendProp>, p: SendProp)
    ensures
        props_model(apply_one(props, p)) == apply_one_model(
            props_model(props),
            (p.index as int, model_of(p.value)),
        ),
    decreases props.len(),
{
    let pm = (p.index as int, model_of(p.value));
    if props.len() == 0 {
        assert(props_model(seq![p]) =~= seq![pm]);
    } else {
        assert(props_model(props).skip(1) =~= props_model(props.skip(1)));
        if props[0].index == p.index {
            assert(props_model(seq![p] + props.skip(1)) =~= seq![pm] + props_model(props).skip(1));
        } else {
            lemma_apply_one_model(props.skip(1), p);
            assert(props_model(seq![props[0]] + apply_one(props.skip(1), p)) =~= seq![
                props_model(props)[0],
            ] + props_model(apply_one(props.skip(1), p)));
        }
    }
}

/// The model of applied updates is the updates applied to the models.
pub proof fn lemma_apply_all_model(props: Seq<SendProp>, updates: Seq<SendProp>)
    ensures
        props_model(apply_all(props, updates)) == apply_all_model(
            props_model(props),
            props_model(updates),
        ),
    decreases updates.len(),
{
    if updates.len() > 0 {
        lemma_apply_one_model(props, updates[0]);
        assert(props_model(updates).skip(1) =~= props_model(updates.skip(1)));
        lemma_apply_all_model(apply_one(props, updates[0]), updates.skip(1));
    }
}

/// What a decoded entity stands for.
pub struct EntityModel {
    pub id: u32,
    pub class: ServerClass,
    pub pvs: PVS,
    pub in_pvs: bool,
    pub serial: nat,
    pub props: Seq<(int, ValueModel)>,
}

/// The model of an entity.
pub open spec fn entity_model(e: PacketEntity) -> EntityModel {
    EntityModel {
        id: e.entity_index.0,
        class: e.server_class,
        pvs: e.pvs,
        in_pvs: e.in_pvs,
        serial: e.serial_number as nat,
        props: props_model(e.props@),
    }
}

/// The models of a list of entities.
pub open spec fn entity_models(es: Seq<PacketEntity>) -> Seq<EntityModel> {
    es.map_values(|e: PacketEntity| entity_model(e))
}

/// Decoding of one entity record whose id is `id` and whose 2-bit PVS tag
/// has been read: `None` when the record emits no entity (a leave or delete
/// of an entity that is not live).
pub open spec fn take_record(b: Seq<bool>, state: &ParserState, slot: usize, id: u32, tag: nat) -> Result<
    (Option<EntityModel>, Seq<bool>),
    ParseError,
> {
    if tag == 2 {
        match take_enter(b, state, slot, id) {
            Err(e) => Err(e),
            Ok((m, r)) => {
                let class = state.server_classes@[m.class_index as int];
                match find_table(state.send_tables@, class.data_table@) {
                    None => Err(ParseError::UnknownSendTable(class.data_table)),
                    Some(t) => match take_updates(r, t, 0) {
                        Err(e) => Err(e),
                        Ok((ups, r2)) => Ok(
                            (
                                Some(
                                    EntityModel {
                                        id,
                                        class,
                                        pvs: PVS::Enter,
                                        in_pvs: true,
                                        serial: m.serial,
                                        props: apply_all_model(m.props, ups),
                                    },
                                ),
                                r2,
                            ),
                        ),
                    },
                }
            },
        }
    } else if tag == 0 {
        if !state.entity_classes@.contains_key(id) {
            Err(ParseError::UnknownEntity(id))
        } else {
            let class = state.entity_classes@[id];
            match find_table(state.send_tables@, class.data_table@) {
                None => Err(ParseError::UnknownSendTable(class.data_table)),
                Some(t) => match take_updates(b, t, 0) {
                    Err(e) => Err(e),
                    Ok((ups, r2)) => Ok(
                        (
                            Some(
                                EntityModel {
                                    id,
                                    class,
                                    pvs: PVS::Preserve,
                                    in_pvs: false,
                                    serial: 0,
                                    props: ups,
                                },
                            ),
                            r2,
                        ),
                    ),
                },
            }
        }
    } else if state.entity_classes@.contains_key(id) {
        Ok(
            (
                Some(
                    EntityModel {
                        id,
                        class: state.entity_classes@[id],
                        pvs: if tag == 1 { PVS::Leave } else { PVS::Delete },
                        in_pvs: false,
                        serial: 0,
                        props: Seq::empty(),
                    },
                ),
                b,
            ),
        )
    } else {
        Ok((None, b))
    }
}

/// Decoding of `n` entity records, the previous entity index being `last`:
/// each record has a ubitvar gap (the index is `last + gap + 1`, which must
/// fit in 32 bits), a 2-bit PVS tag, then what `take_record` reads.
pub open spec fn take_entities(b: Seq<bool>, state: &ParserState, slot: usize, n: nat, last: int) -> Result<
    (Seq<EntityModel>, Seq<bool>),
    ParseError,
>
    decreases n,
{
    if n == 0 {
        Ok((Seq::empty(), b))
    } else {
        match take_ubitvar(b) {
            None => Err(ParseError::NotEnoughData),
            Some((diff, r1)) => {
                let index = last + diff + 1;
                if index > 0xffff_ffff {
                    Err(ParseError::InvalidEncoding)
                } else {
                    match take_uint(r1, 2) {
                        None => Err(ParseError::NotEnoughData),
                        Some((tag, r2)) => match take_record(r2, state, slot, index as u32, tag) {
                            Err(e) => Err(e),
                            Ok((om, r3)) => match take_entities(r3, state, slot, (n - 1) as nat, index) {
                                Err(e) => Err(e),
                                Ok((es, r4)) => Ok(
                                    (
                                        match om {
                                            Some(m) => seq![m] + es,
                                            None => es,
                                        },
                                        r4,
                                    ),
                                ),
                            },
                        },
                    }
                }
            },
        }
    }
}

/// Prefixes the entities decoded so far to what the rest decodes to.
pub open spec fn after_entities(
    done: Seq<EntityModel>,
    rest: Result<(Seq<EntityModel>, Seq<bool>), ParseError>,
) -> Result<(Seq<EntityModel>, Seq<bool>), ParseError> {
    match rest {
        Ok((xs, r)) => Ok((done + xs, r)),
        Err(e) => Err(e),
    }
}

/// Decoding of the removed-entities trailer: while a set bit comes, an
/// 11-bit entity id; a clear bit ends it.
pub open spec fn take_trailer(b: Seq<bool>) -> Result<(Seq<u32>, Seq<bool>), ParseError>
    decreases b.len(),
{
    if b.len() == 0 {
        Err(ParseError::NotEnoughData)
    } else if !b[0] {
        Ok((Seq::empty(), b.skip(1)))
    } else {
        match take_uint(b.skip(1), 11) {
            None => Err(ParseError::NotEnoughData),
            Some((id, r)) => match take_trailer(r) {
                Ok((ids, r2)) => Ok((seq![id as u32] + ids, r2)),
                Err(e) => Err(e),
            },
        }
    }
}

/// Decoding of a frame body: the entity records, then the trailer when
/// the frame is a delta. Yields the entities and the removed ids.
pub open spec fn take_frame(body: Seq<bool>, state: &ParserState, h: EntitiesHeader) -> Result<
    (Seq<EntityModel>, Seq<u32>),
    ParseError,
> {
    match take_entities(body, state, h.base_line as usize, h.updated_entries, -1) {
        Err(e) => Err(e),
        Ok((es, r)) => if h.delta is Some {
            match take_trailer(r) {
                Ok((ids, _)) => Ok((es, ids)),
                Err(e) => Err(e),
            }
        } else {
            Ok((es, Seq::empty()))
        },
    }
}

/// The ids of a list of entity ids.
pub open spec fn id_values(ids: Seq<EntityId>) -> Seq<u32> {
    ids.map_values(|i: EntityId| i.0)
}

/// Entity ids rise strictly along the list.
pub open spec fn entity_ids_increasing(entities: Seq<PacketEntity>) -> bool {
    forall|i: int, j: int|
        0 <= i < j < entities.len() ==> #[trigger] entities[i].entity_index.0
            < #[trigger] entities[j].entity_index.0
}

/// What each decoded entity owes to the state: an updated entity has the
/// class of the live entity and a list of props in rising index order; a
/// leaving or deleted one is live and has no props; an entering one repeats
/// no definition unless the instance baseline it started from did.
pub open spec fn entity_consistent(state: &ParserState, slot: usize, e: PacketEntity) -> bool {
    match e.pvs {
        PVS::Preserve => state.entity_classes@.contains_key(e.entity_index.0) && e.server_class
            == state.entity_classes@[e.entity_index.0] && indices_increasing(e.props@),
        PVS::Enter => e.in_pvs && state.server_classes@.contains(e.server_class) && (baseline_unique(state, slot, e.entity_index.0) ==> props_unique(
            e.props@,
        )),
        _ => state.entity_classes@.contains_key(e.entity_index.0) && e.server_class
            == state.entity_classes@[e.entity_index.0] && e.props@.len() == 0,
    }
}

impl PacketEntitiesMessage {
    /// Decodes one packet-entities message. The body is carved out by its
    /// length, so the stream ends up just past it whatever the body holds.
    #[verifier::rlimit(60)]
    pub fn parse(s: &mut Stream, state: &ParserState) -> (r: Result<PacketEntitiesMessage, ParseError>)
        ensures
            r is Ok ==> match take_entities_header(stream_bits(*old(s))) {
                Some((h, rest)) => {
                    let m = r->Ok_0;
                    &&& h.length <= rest.len()
                    &&& stream_bits(*final(s)) == rest.skip(h.length as int)
                    &&& m.max_entries == h.max_entries
                    &&& m.delta == h.delta
                    &&& m.base_line == h.base_line
                    &&& m.updated_base_line == h.updated_base_line
                    &&& m.entities@.len() <= h.updated_entries
                },
                None => false,
            },
            r is Ok ==> r->Ok_0.removed_entities@.len() > 0 ==> r->Ok_0.delta is Some,
            r is Ok ==> entity_ids_increasing(r->Ok_0.entities@),
            r is Ok ==> forall|i: int|
                0 <= i < r->Ok_0.entities@.len() ==> entity_consistent(
                    state,
                    r->Ok_0.base_line as usize,
                    #[trigger] r->Ok_0.entities@[i],
                ),
            match take_entities_header(stream_bits(*old(s))) {
                Some((h, rest)) => if h.length <= rest.len() {
                    match take_frame(rest.take(h.length as int), state, h) {
                        Ok((es, ids)) => r is Ok && entity_models(r->Ok_0.entities@) == es
                            && id_values(r->Ok_0.removed_entities@) == ids,
                        Err(e) => r == Err::<PacketEntitiesMessage, ParseError>(e),
                    }
                } else {
                    r == Err::<PacketEntitiesMessage, ParseError>(ParseError::NotEnoughData)
                },
                None => r == Err::<PacketEntitiesMessage, ParseError>(ParseError::NotEnoughData),
            },
    {
        let ghost b0 = stream_bits(*s);
        let max_entries = match read_uint(s, 11) {
            Ok(v) => v,
            Err(e) => return Err(read_failure(e)),
        };
        let has_delta = match read_bool(s) {
            Ok(v) => v,
            Err(e) => return Err(read_failure(e)),
        };
        let delta: Option<u32> = if has_delta {
            match read_uint(s, 32) {
                Ok(v) => Some(v),
                Err(e) => return Err(read_failure(e)),
            }
        } else {
            None
        };
        let ghost b2 = stream_bits(*s);
        let base_line = match read_uint(s, 1) {
            Ok(v) => v,
            Err(e) => return Err(read_failure(e)),
        };
        let updated_entries = match read_uint(s, 11) {
            Ok(v) => v,
            Err(e) => return Err(read_failure(e)),
        };
        let length = match read_uint(s, 20) {
            Ok(v) => v,
            Err(e) => return Err(read_failure(e)),
        };
        let updated_base_line = match read_bool(s) {
            Ok(v) => v,
            Err(e) => return Err(read_failure(e)),
        };
        proof {
            vstd::arithmetic::power2::lemma2_to64();
            crate::bits::lemma_bits_value_bound(b0.take(11));
            crate::bits::lemma_bits_value_bound(b2.take(1));
        }
        let ghost header_rest = stream_bits(*s);
        let ghost hdr = EntitiesHeader {
            max_entries: max_entries as nat,
            delta,
            base_line: base_line as nat,
            updated_entries: updated_entries as nat,
            length: length as nat,
            updated_base_line,
        };
        assert(take_entities_header(b0) == Some((hdr, header_rest)));
        let mut data = match read_sub_stream(s, length as usize) {
            Ok(d) => d,
            Err(e) => return Err(read_failure(e)),
        };
        let ghost outer_after = stream_bits(*s);
        let ghost body = stream_bits(data);
        let ghost slot = base_line as usize;
        let mut entities: Vec<PacketEntity> = Vec::new();
        let mut removed_entities: Vec<EntityId> = Vec::new();
        let mut last_index: i64 = -1;
        let mut n: u32 = 0;
        proof {
            match take_entities(body, state, slot, updated_entries as nat, -1) {
                Ok((xs, r)) => {
                    assert(entity_models(entities@) + xs =~= xs);
                },
                Err(_) => {},
            }
        }
        while n < updated_entries
            invariant
                body == header_rest.take(hdr.length as int),
                slot == base_line as usize,
                take_entities(body, state, slot, updated_entries as nat, -1) == after_entities(
                    entity_models(entities@),
                    take_entities(stream_bits(data), state, slot, (updated_entries - n) as nat, last_index as int),
                ),
                n <= updated_entries,
                entities@.len() <= n,
                -1 <= last_index <= 0xffff_ffff,
                entity_ids_increasing(entities@),
                forall|i: int| 0 <= i < entities@.len() ==> #[trigger] entities@[i].entity_index.0 <= last_index,
                forall|i: int|
                    0 <= i < entities@.len() ==> entity_consistent(
                        state,
                        base_line as usize,
                        #[trigger] entities@[i],
                    ),
                removed_entities@.len() == 0,
                base_line < 2,
                stream_bits(*s) == outer_after,
                b0 == stream_bits(*old(s)),
                take_entities_header(b0) == Some((hdr, header_rest)),
                hdr.length <= header_rest.len(),
                outer_after == header_rest.skip(hdr.length as int),
                hdr.updated_entries == updated_entries,
                hdr.max_entries == max_entries,
                hdr.base_line == base_line,
                hdr.delta == delta,
                hdr.updated_base_line == updated_base_line,
                max_entries < 2048,
            decreases updated_entries - n,
        {
            let ghost before = stream_bits(data);
            let ghost done = entity_models(entities@);
            let ghost last_before = last_index as int;
            let ghost mut om: Option<EntityModel> = None;
            let diff = match read_bit_var(&mut data) {
                Ok(v) => v,
                Err(e) => return Err(e),
            };
            last_index = last_index + diff as i64 + 1;
            if last_index > 0xffff_ffff {
                return Err(ParseError::InvalidEncoding);
            }
            let entity_index = EntityId(last_index as u32);
            let ghost after_tag_before = stream_bits(data);
            let pvs_tag = match read_uint(&mut data, 2) {
                Ok(v) => v,
                Err(e) => return Err(read_failure(e)),
            };
            let ghost after_tag = stream_bits(data);
            proof {
                vstd::arithmetic::power2::lemma2_to64();
                crate::bits::lemma_bits_value_bound(after_tag_before.take(2));
            }
            let pvs = if pvs_tag == 0 {
                PVS::Preserve
            } else if pvs_tag == 1 {
                PVS::Leave
            } else if pvs_tag == 2 {
                PVS::Enter
            } else {
                PVS::Delete
            };
            let record = match Self::read_record(&mut data, state, base_line as usize, entity_index, pvs_tag) {
                Ok(x) => x,
                Err(e) => return Err(e),
            };
            match record {
                Some(entity) => {
                    proof {
                        om = Some(entity_model(entity));
                    }
                    entities.push(entity);
                },
                None => {},
            }
            proof {
                assert(take_record(after_tag, state, slot, last_index as u32, pvs_tag as nat) == Ok::<
                    (Option<EntityModel>, Seq<bool>),
                    ParseError,
                >((om, stream_bits(data))));
                match om {
                    Some(m) => {
                        assert(entity_models(entities@) =~= done.push(m));
                    },
                    None => {
                        assert(entity_models(entities@) =~= done);
                    },
                }
                match take_entities(stream_bits(data), state, slot, (updated_entries - n - 1) as nat, last_index as int) {
                    Ok((es, r4)) => {
                        match om {
                            Some(m) => {
                                assert(done + (seq![m] + es) =~= entity_models(entities@) + es);
                            },
                            None => {},
                        }
                    },
                    Err(_) => {},
                }
            }
            n = n + 1;
        }
        let ghost ents_rest = stream_bits(data);
        proof {
            assert(entity_models(entities@) + Seq::<EntityModel>::empty() =~= entity_models(entities@));
        }
        if delta.is_some() {
            removed_entities = match Self::read_trailer(&mut data) {
                Ok(ids) => ids,
                Err(e) => return Err(e),
            };
        }
        Ok(
            PacketEntitiesMessage {
                entities,
                removed_entities,
                max_entries: max_entries as u16,
                delta,
                base_line: base_line as u8,
                updated_base_line,
            },
        )
    }

    /// Reads one entity record after its index and its 2-bit PVS tag: an
    /// entering entity and its update list, an update of a live entity, or
    /// a leave or delete, which emits an entity only when it is live.
    fn read_record(
        data: &mut Stream,
        state: &ParserState,
        base_line: usize,
        entity_index: EntityId,
        pvs_tag: u32,
    ) -> (r: Result<Option<PacketEntity>, ParseError>)
        requires
            base_line < 2,
            pvs_tag < 4,
        ensures
            stream_bits(*final(data)).len() <= stream_bits(*old(data)).len(),
            match take_record(stream_bits(*old(data)), state, base_line, entity_index.0, pvs_tag as nat) {
                Ok((om, rest)) => r is Ok && stream_bits(*final(data)) == rest && match r->Ok_0 {
                    Some(e) => om == Some(entity_model(e)) && e.entity_index == entity_index
                        && entity_consistent(state, base_line, e),
                    None => om is None,
                },
                Err(e) => r == Err::<Option<PacketEntity>, ParseError>(e),
            },
    {
        let pvs = if pvs_tag == 0 {
            PVS::Preserve
        } else if pvs_tag == 1 {
            PVS::Leave
        } else if pvs_tag == 2 {
            PVS::Enter
        } else {
            PVS::Delete
        };
        if pvs == PVS::Enter {
            let ghost before_enter = stream_bits(*data);
            let mut entity = match Self::read_enter(
                data,
                entity_index,
                state,
                base_line as usize,
            ) {
                Ok(e) => e,
                Err(e) => return Err(e),
            };
            let send_table = match get_send_table(state, &entity.server_class.data_table) {
                Ok(t) => t,
                Err(e) => return Err(e),
            };
            let updated_props = match Self::read_update(data, send_table) {
                Ok(p) => p,
                Err(e) => return Err(e),
            };
            proof {
                match take_uint(before_enter, ceil_log2(state.server_classes@.len() as nat) + 1) {
                    Some((ci, _)) => {
                        assert(state.server_classes@[ci as int] == entity.server_class);
                    },
                    None => {},
                }
                lemma_apply_all_model(entity.props@, updated_props@);
            }
            entity.apply_update(updated_props);
            Ok(Some(entity))
        } else if pvs == PVS::Preserve {
            let mut entity = match get_entity_for_update(state, entity_index, pvs) {
                Ok(e) => e,
                Err(e) => return Err(e),
            };
            let send_table = match get_send_table(state, &entity.server_class.data_table) {
                Ok(t) => t,
                Err(e) => return Err(e),
            };
            let updated_props = match Self::read_update(data, send_table) {
                Ok(p) => p,
                Err(e) => return Err(e),
            };
            entity.props = updated_props;
            Ok(Some(entity))
        } else if state.entity_classes.contains_key(&entity_index.0) {
            let entity = match get_entity_for_update(state, entity_index, pvs) {
                Ok(e) => e,
                Err(e) => return Err(e),
            };
            assert(props_model(entity.props@) =~= Seq::<(int, ValueModel)>::empty());
            Ok(Some(entity))
        } else {
            Ok(None)
        }
    }

    /// Reads the removed-entities trailer: while a set bit comes, an 11-bit
    /// entity id.
    fn read_trailer(data: &mut Stream) -> (r: Result<Vec<EntityId>, ParseError>)
        ensures
            match take_trailer(stream_bits(*old(data))) {
                Ok((ids, rest)) => r is Ok && id_values(r->Ok_0@) == ids && stream_bits(*final(data))
                    == rest,
                Err(e) => r == Err::<Vec<EntityId>, ParseError>(e),
            },
    {
        let mut removed: Vec<EntityId> = Vec::new();
        proof {
            match take_trailer(stream_bits(*data)) {
                Ok((xs, r)) => {
                    assert(id_values(removed@) + xs =~= xs);
                },
                Err(_) => {},
            }
        }
        loop
            invariant
                take_trailer(stream_bits(*old(data))) == match take_trailer(stream_bits(*data)) {
                    Ok((xs, r)) => Ok((id_values(removed@) + xs, r)),
                    Err(e) => Err(e),
                },
            decreases stream_bits(*data).len(),
        {
            let ghost done = id_values(removed@);
            let more = match read_bool(data) {
                Ok(b) => b,
                Err(e) => return Err(read_failure(e)),
            };
            if !more {
                assert(done + Seq::<u32>::empty() =~= done);
                return Ok(removed);
            }
            let id = match read_uint(data, 11) {
                Ok(v) => v,
                Err(e) => return Err(read_failure(e)),
            };
            removed.push(EntityId(id));
            proof {
                vstd::arithmetic::power2::lemma2_to64();
                assert(id_values(removed@) =~= done.push(id));
                match take_trailer(stream_bits(*data)) {
                    Ok((xs, r)) => {
                        assert(done + (seq![id] + xs) =~= id_values(removed@) + xs);
                    },
                    Err(_) => {},
                }
            }
        }
    }

    /// Skips one packet-entities message: reads its header and jumps over
    /// the body by its length.
    pub fn parse_skip(s: &mut Stream) -> (r: Result<(), ParseError>)
        ensures
            r is Ok <==> match take_entities_header(stream_bits(*old(s))) {
                Some((h, rest)) => h.length <= rest.len(),
                None => false,
            },
            r is Ok ==> match take_entities_header(stream_bits(*old(s))) {
                Some((h, rest)) => stream_bits(*final(s)) == rest.skip(h.length as int),
                None => false,
            },
    {
        match read_uint(s, 11) {
            Ok(_) => {},
            Err(e) => return Err(read_failure(e)),
        }
        let has_delta = match read_bool(s) {
            Ok(v) => v,
            Err(e) => return Err(read_failure(e)),
        };
        if has_delta {
            match read_uint(s, 32) {
                Ok(_) => {},
                Err(e) => return Err(read_failure(e)),
            }
        }
        match read_uint(s, 1) {
            Ok(_) => {},
            Err(e) => return Err(read_failure(e)),
        }
        match read_uint(s, 11) {
            Ok(_) => {},
            Err(e) => return Err(read_failure(e)),
        }
        let length = match read_uint(s, 20) {
            Ok(v) => v,
            Err(e) => return Err(read_failure(e)),
        };
        match read_bool(s) {
            Ok(_) => {},
            Err(e) => return Err(read_failure(e)),
        }
        match skip_bits(s, length as usize) {
            Ok(()) => Ok(()),
            Err(e) => Err(read_failure(e)),
        }
    }

    /// Reads an entering entity: its class index in
    /// `ceil(log2(class count)) + 1` bits and a 10-bit serial number. Its
    /// starting props are the instance baseline of the slot `baseline_index`
    /// when that holds the entity, else the decoded static baseline of its
    /// class when there is one, else none.
    pub fn read_enter(
        s: &mut Stream,
        entity_index: EntityId,
        state: &ParserState,
        baseline_index: usize,
    ) -> (r: Result<PacketEntity, ParseError>)
        requires
            baseline_index < 2,
        ensures
            stream_bits(*final(s)).len() <= stream_bits(*old(s)).len(),
            match take_enter(stream_bits(*old(s)), state, baseline_index, entity_index.0) {
                Ok((m, rest)) => r is Ok && r->Ok_0.server_class == state.server_classes@[m.class_index as int]
                    && r->Ok_0.serial_number == m.serial && props_model(r->Ok_0.props@) == m.props
                    && stream_bits(*final(s)) == rest,
                Err(e) => r == Err::<PacketEntity, ParseError>(e),
            },
            r is Ok && baseline_unique(state, baseline_index, entity_index.0) ==> props_unique(
                r->Ok_0.props@,
            ),
            r is Ok ==> r->Ok_0.entity_index == entity_index && r->Ok_0.in_pvs && r->Ok_0.pvs
                == PVS::Enter && r->Ok_0.delay is None,
    {
        let bits = count_bits(state.server_classes.len() as u64);
        if bits > 32 {
            return Err(ParseError::InvalidEncoding);
        }
        proof {
            vstd::arithmetic::power2::lemma2_to64();
        }
        let class_index = match read_uint(s, bits as usize) {
            Ok(v) => v as usize,
            Err(e) => return Err(read_failure(e)),
        };
        if class_index >= state.server_classes.len() {
            return Err(ParseError::UnknownServerClass(class_index));
        }
        let server_class = &state.server_classes[class_index];
        let serial = match read_uint(s, 10) {
            Ok(v) => v,
            Err(e) => return Err(read_failure(e)),
        };
        let send_table = match get_send_table(state, &server_class.data_table) {
            Ok(t) => t,
            Err(e) => return Err(e),
        };
        let props = match state.instance_baselines[baseline_index].get(&entity_index.0) {
            Some(baseline) => {
                let p = copy_props(baseline);
                proof {
                    if props_unique(baseline@) {
                        lemma_same_indices_unique(p@, baseline@);
                    }
                }
                p
            },
            None => match state.static_baselines.get(&server_class.id) {
                Some(static_baseline) => {
                    let mut bytes: Vec<u8> = Vec::new();
                    let mut k: usize = 0;
                    while k < static_baseline.len()
                        invariant
                            k <= static_baseline@.len(),
                            bytes@ == static_baseline@.take(k as int),
                        decreases static_baseline@.len() - k,
                    {
                        bytes.push(static_baseline[k]);
                        assert(bytes@ =~= static_baseline@.take(k + 1));
                        k = k + 1;
                    }
                    assert(bytes@ =~= static_baseline@);
                    let mut baseline_stream = stream_from_bytes(bytes);
                    match PacketEntitiesMessage::read_update(&mut baseline_stream, send_table) {
                        Ok(p) => p,
                        Err(e) => return Err(e),
                    }
                },
                None => Vec::new(),
            },
        };
        Ok(
            PacketEntity {
                server_class: server_class.duplicate(),
                entity_index,
                props,
                in_pvs: true,
                pvs: PVS::Enter,
                serial_number: serial,
                delay: None,
            },
        )
    }

    /// Reads a prop update list: while a continuation bit is set, a ubitvar
    /// gap to the next flattened-prop index, then that prop's value.
    pub fn read_update(s: &mut Stream, send_table: &SendTable) -> (r: Result<Vec<SendProp>, ParseError>)
        ensures
            stream_bits(*final(s)).len() <= stream_bits(*old(s)).len(),
            match take_updates(stream_bits(*old(s)), *send_table, 0) {
                Ok((ps, rest)) => r is Ok && props_model(r->Ok_0@) == ps && stream_bits(*final(s))
                    == rest,
                Err(e) => r == Err::<Vec<SendProp>, ParseError>(e),
            },
            r is Ok ==> props_unique(r->Ok_0@),
            r is Ok ==> indices_increasing(r->Ok_0@) && forall|i: int|
                0 <= i < r->Ok_0@.len() ==> #[trigger] r->Ok_0@[i].index
                    < send_table.flattened_props@.len(),
    {
        let mut next: usize = 0;
        let mut props: Vec<SendProp> = Vec::new();
        proof {
            match take_updates(stream_bits(*s), *send_table, 0) {
                Ok((xs, r)) => {
                    assert(props_model(props@) + xs =~= xs);
                },
                Err(_) => {},
            }
        }
        loop
            invariant
                stream_bits(*s).len() <= stream_bits(*old(s)).len(),
                indices_increasing(props@),
                forall|i: int|
                    0 <= i < props@.len() ==> #[trigger] props@[i].index < send_table.flattened_props@.len(),
                forall|i: int| 0 <= i < props@.len() ==> #[trigger] props@[i].index < next,
                next <= send_table.flattened_props@.len(),
                take_updates(stream_bits(*old(s)), *send_table, 0) == after_updates(
                    props_model(props@),
                    take_updates(stream_bits(*s), *send_table, next as nat),
                ),
            decreases stream_bits(*s).len(),
        {
            let ghost before = stream_bits(*s);
            let ghost done = props_model(props@);
            let more = match read_bool(s) {
                Ok(b) => b,
                Err(e) => return Err(read_failure(e)),
            };
            if !more {
                proof {
                    lemma_increasing_unique(props@);
                    assert(done + Seq::<(int, ValueModel)>::empty() =~= done);
                }
                return Ok(props);
            }
            let diff = match read_bit_var(s) {
                Ok(v) => v,
                Err(e) => return Err(e),
            };
            let len = send_table.flattened_props.len();
            if diff as usize >= len - next {
                let index = (next as u64).saturating_add(diff as u64);
                return Err(
                    ParseError::PropIndexOutOfBounds {
                        index,
                        prop_count: len,
                    },
                );
            }
            let index = next + diff as usize;
            let definition = &send_table.flattened_props[index];
            let value = match SendPropValue::parse(s, definition) {
                Ok(v) => v,
                Err(e) => return Err(e),
            };
            props.push(SendProp { index, value });
            proof {
                assert(props_model(props@) =~= done.push((index as int, model_of(value))));
                match take_updates(stream_bits(*s), *send_table, (index + 1) as nat) {
                    Ok((xs, r)) => {
                        assert(done + (seq![(index as int, model_of(value))] + xs) =~= props_model(props@) + xs);
                    },
                    Err(_) => {},
                }
            }
            next = index + 1;
        }
    }
}

impl ParserState {
    /// Installs a frame's entering entities as instance baselines when the
    /// frame asks for it: their prop lists go to the slot other than the one
    /// the frame read from, and the slot it read from is left as it was.
    pub fn promote_baselines(&mut self, message: &PacketEntitiesMessage)
        requires
            message.base_line < 2,
            entity_ids_increasing(message.entities@),
        ensures
            final(self).instance_baselines[message.base_line as int] == old(
                self,
            ).instance_baselines[message.base_line as int],
            !message.updated_base_line ==> final(self).instance_baselines == old(
                self,
            ).instance_baselines,
            message.updated_base_line ==> forall|i: int|
                0 <= i < message.entities@.len() && (#[trigger] message.entities@[i]).pvs
                    == PVS::Enter ==> {
                    let slot = final(self).instance_baselines[1 - message.base_line]@;
                    let e = message.entities@[i];
                    &&& slot.contains_key(e.entity_index.0)
                    &&& props_model(slot[e.entity_index.0]@) == props_model(e.props@)
                },
            final(self).send_tables == old(self).send_tables,
            final(self).server_classes == old(self).server_classes,
            final(self).event_definitions == old(self).event_definitions,
            final(self).entity_classes == old(self).entity_classes,
            final(self).static_baselines == old(self).static_baselines,
    {
        if !message.updated_base_line {
            return;
        }
        let other: usize = 1 - message.base_line as usize;
        let mut i: usize = 0;
        while i < message.entities.len()
            invariant
                i <= message.entities@.len(),
                other == 1 - message.base_line,
                message.base_line < 2,
                entity_ids_increasing(message.entities@),
                message.updated_base_line,
                self.instance_baselines[message.base_line as int] == old(
                    self,
                ).instance_baselines[message.base_line as int],
                forall|k: int|
                    0 <= k < i && (#[trigger] message.entities@[k]).pvs == PVS::Enter ==> {
                        let slot = self.instance_baselines[other as int]@;
                        let e = message.entities@[k];
                        &&& slot.contains_key(e.entity_index.0)
                        &&& props_model(slot[e.entity_index.0]@) == props_model(e.props@)
                    },
                self.send_tables == old(self).send_tables,
                self.server_classes == old(self).server_classes,
                self.event_definitions == old(self).event_definitions,
                self.entity_classes == old(self).entity_classes,
                self.static_baselines == old(self).static_baselines,
            decreases message.entities@.len() - i,
        {
            let entity = &message.entities[i];
            if entity.pvs == PVS::Enter {
                let props = copy_props(&entity.props);
                self.instance_baselines[other].insert(entity.entity_index.0, props);
                assert forall|k: int|
                    0 <= k < i && (#[trigger] message.entities@[k]).pvs == PVS::Enter implies message.entities@[k].entity_index.0
                        != entity.entity_index.0 by {
                    assert(message.entities@[k].entity_index.0 < message.entities@[i as int].entity_index.0);
                }
            }
            i = i + 1;
        }
    }
}

} // verus!
