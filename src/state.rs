//! The long-lived context that the decoders read: schema tables, baselines
//! and the classes of live entities.
use vstd::prelude::*;
use std::collections::HashMap;
use crate::gameevent::GameEventDefinition;
use crate::sendprop::{SendProp, SendTable};

verus! {

/// Schema of a class of entities, naming its send table.
#[derive(Debug, Clone, PartialEq)]
pub struct ServerClass {
    pub id: u16,
    pub name: String,
    pub data_table: String,
}

impl ServerClass {
    /// A copy equal to the original.
    pub fn duplicate(&self) -> (r: ServerClass)
        ensures
            r == *self,
    {
        ServerClass { id: self.id, name: self.name.clone(), data_table: self.data_table.clone() }
    }
}

/// What the decoders read. `event_definitions` is indexed by event type id;
/// `entity_classes` maps a live entity id to its class; `static_baselines`
/// maps a class id to the encoded prop list of its baseline; the two
/// `instance_baselines` slots map entity ids to decoded prop lists.
pub struct ParserState {
    pub send_tables: Vec<SendTable>,
    pub server_classes: Vec<ServerClass>,
    pub event_definitions: Vec<GameEventDefinition>,
    pub entity_classes: HashMap<u32, ServerClass>,
    pub static_baselines: HashMap<u16, Vec<u8>>,
    pub instance_baselines: [HashMap<u32, Vec<SendProp>>; 2],
}

impl ParserState {
    /// A state with no schema and no entities.
    pub fn new() -> (r: ParserState)
        ensures
            r.send_tables@.len() == 0,
            r.server_classes@.len() == 0,
            r.event_definitions@.len() == 0,
            r.entity_classes@.len() == 0,
            r.static_baselines@.len() == 0,
            r.instance_baselines[0]@.len() == 0,
            r.instance_baselines[1]@.len() == 0,
    {
        ParserState {
            send_tables: Vec::new(),
            server_classes: Vec::new(),
            event_definitions: Vec::new(),
            entity_classes: HashMap::new(),
            static_baselines: HashMap::new(),
            instance_baselines: [HashMap::new(), HashMap::new()],
        }
    }
}

} // verus!
