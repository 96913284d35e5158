//! Recipe flows: configuration, stored fields, and how an update request
//! merges into them.
use vstd::prelude::*;

verus! {

#[derive(Clone, Debug)]
pub struct RecipeFlowZomeConfig {
    pub index_zome: String,
    pub process_index_zome: Option<String>,
    pub agent_index_zome: Option<String>,
}

#[derive(Clone, Debug)]
pub struct DnaConfigSlice {
    pub recipe_flow: RecipeFlowZomeConfig,
}

/// A field of an update request: left as it is, cleared, or set.
pub enum MaybeUndefined<T> {
    /// Clear the field.
    Null,
    /// Set the field.
    Value(T),
    /// Leave the field as it is.
    Undefined,
}

/// A measured quantity. The logic here only carries it, so its number is
/// kept as the bit pattern of an IEEE 754 double.
pub struct QuantityValue {
    pub has_numerical_value_bits: u64,
    pub has_unit: Option<String>,
}

/// Stored fields of a recipe flow.
pub struct EntryData {
    pub resource_quantity: Option<QuantityValue>,
    pub effort_quantity: Option<QuantityValue>,
    pub action: String,
    pub note: Option<String>,
    pub state: Option<String>,
    pub resource_conforms_to: Option<Vec<u8>>,
    pub stage: Option<Vec<u8>>,
    pub recipe_input_of: Option<Vec<u8>>,
    pub recipe_output_of: Option<Vec<u8>>,
    pub _nonce: Vec<u8>,
}

/// Fields of a new recipe flow.
pub struct CreateRequest {
    pub action: String,
    pub note: Option<String>,
    pub resource_quantity: Option<QuantityValue>,
    pub effort_quantity: Option<QuantityValue>,
    pub resource_conforms_to: Option<Vec<u8>>,
    pub stage: Option<Vec<u8>>,
    pub recipe_input_of: Option<Vec<u8>>,
    pub recipe_output_of: Option<Vec<u8>>,
}

/// Fields to change on a recipe flow.
pub struct UpdateRequest {
    pub action: Option<String>,
    pub note: MaybeUndefined<String>,
    pub resource_quantity: MaybeUndefined<QuantityValue>,
    pub effort_quantity: MaybeUndefined<QuantityValue>,
    pub resource_conforms_to: MaybeUndefined<Vec<u8>>,
    pub stage: MaybeUndefined<Vec<u8>>,
    pub recipe_input_of: MaybeUndefined<Vec<u8>>,
    pub recipe_output_of: MaybeUndefined<Vec<u8>>,
}

pub open spec fn str_view(o: Option<String>) -> Option<Seq<char>> {
    match o {
        Some(s) => Some(s@),
        None => None,
    }
}

pub open spec fn qty_view(o: Option<QuantityValue>) -> Option<(u64, Option<Seq<char>>)> {
    match o {
        Some(q) => Some((q.has_numerical_value_bits, str_view(q.has_unit))),
        None => None,
    }
}

pub open spec fn bytes_view(o: Option<Vec<u8>>) -> Option<Seq<u8>> {
    match o {
        Some(b) => Some(b@),
        None => None,
    }
}

/// What a request field makes of a stored field: `Undefined` keeps it,
/// `Null` clears it, `Value(v)` sets it to `v`.
pub open spec fn merge<V>(u: MaybeUndefined<V>, old: Option<V>) -> Option<V> {
    match u {
        MaybeUndefined::Undefined => old,
        MaybeUndefined::Null => None,
        MaybeUndefined::Value(v) => Some(v),
    }
}

fn copy_str(o: &Option<String>) -> (r: Option<String>)
    ensures
        str_view(r) == str_view(*o),
{
    match o {
        Some(s) => Some(s.clone()),
        None => None,
    }
}

fn copy_qty(o: &Option<QuantityValue>) -> (r: Option<QuantityValue>)
    ensures
        qty_view(r) == qty_view(*o),
{
    match o {
        Some(q) => Some(QuantityValue { has_numerical_value_bits: q.has_numerical_value_bits, has_unit: copy_str(&q.has_unit) }),
        None => None,
    }
}

fn copy_bytes_opt(o: &Option<Vec<u8>>) -> (r: Option<Vec<u8>>)
    ensures
        bytes_view(r) == bytes_view(*o),
{
    match o {
        Some(b) => Some(crate::bytes::copy_bytes(b.as_slice())),
        None => None,
    }
}

fn merge_str(u: &MaybeUndefined<String>, old: &Option<String>) -> (r: Option<String>)
    ensures
        str_view(r) == merge(
            match u {
                MaybeUndefined::Value(v) => MaybeUndefined::Value(v@),
                MaybeUndefined::Null => MaybeUndefined::Null,
                MaybeUndefined::Undefined => MaybeUndefined::Undefined,
            },
            str_view(*old),
        ),
{
    match u {
        MaybeUndefined::Undefined => copy_str(old),
        MaybeUndefined::Null => None,
        MaybeUndefined::Value(v) => Some(v.clone()),
    }
}

fn merge_qty(u: &MaybeUndefined<QuantityValue>, old: &Option<QuantityValue>) -> (r: Option<QuantityValue>)
    ensures
        qty_view(r) == merge(
            match u {
                MaybeUndefined::Value(v) => MaybeUndefined::Value((v.has_numerical_value_bits, str_view(v.has_unit))),
                MaybeUndefined::Null => MaybeUndefined::Null,
                MaybeUndefined::Undefined => MaybeUndefined::Undefined,
            },
            qty_view(*old),
        ),
{
    match u {
        MaybeUndefined::Undefined => copy_qty(old),
        MaybeUndefined::Null => None,
        MaybeUndefined::Value(v) => Some(QuantityValue { has_numerical_value_bits: v.has_numerical_value_bits, has_unit: copy_str(&v.has_unit) }),
    }
}

fn merge_bytes(u: &MaybeUndefined<Vec<u8>>, old: &Option<Vec<u8>>) -> (r: Option<Vec<u8>>)
    ensures
        bytes_view(r) == merge(
            match u {
                MaybeUndefined::Value(v) => MaybeUndefined::Value(v@),
                MaybeUndefined::Null => MaybeUndefined::Null,
                MaybeUndefined::Undefined => MaybeUndefined::Undefined,
            },
            bytes_view(*old),
        ),
{
    match u {
        MaybeUndefined::Undefined => copy_bytes_opt(old),
        MaybeUndefined::Null => None,
        MaybeUndefined::Value(v) => Some(crate::bytes::copy_bytes(v.as_slice())),
    }
}

pub open spec fn str_field(u: MaybeUndefined<String>) -> MaybeUndefined<Seq<char>> {
    match u {
        MaybeUndefined::Value(v) => MaybeUndefined::Value(v@),
        MaybeUndefined::Null => MaybeUndefined::Null,
        MaybeUndefined::Undefined => MaybeUndefined::Undefined,
    }
}

pub open spec fn qty_field(u: MaybeUndefined<QuantityValue>) -> MaybeUndefined<(u64, Option<Seq<char>>)> {
    match u {
        MaybeUndefined::Value(v) => MaybeUndefined::Value((v.has_numerical_value_bits, str_view(v.has_unit))),
        MaybeUndefined::Null => MaybeUndefined::Null,
        MaybeUndefined::Undefined => MaybeUndefined::Undefined,
    }
}

pub open spec fn bytes_field(u: MaybeUndefined<Vec<u8>>) -> MaybeUndefined<Seq<u8>> {
    match u {
        MaybeUndefined::Value(v) => MaybeUndefined::Value(v@),
        MaybeUndefined::Null => MaybeUndefined::Null,
        MaybeUndefined::Undefined => MaybeUndefined::Undefined,
    }
}

impl EntryData {
    /// The stored fields of a new recipe flow, with the given 32-byte nonce. The
    /// state starts as the note.
    pub fn from_request(e: &CreateRequest, nonce: Vec<u8>) -> (r: EntryData)
        requires
            nonce@.len() == 32,
        ensures
            r.action@ == e.action@,
            str_view(r.note) == str_view(e.note),
            str_view(r.state) == str_view(e.note),
            qty_view(r.resource_quantity) == qty_view(e.resource_quantity),
            qty_view(r.effort_quantity) == qty_view(e.effort_quantity),
            bytes_view(r.resource_conforms_to) == bytes_view(e.resource_conforms_to),
            bytes_view(r.stage) == bytes_view(e.stage),
            bytes_view(r.recipe_input_of) == bytes_view(e.recipe_input_of),
            bytes_view(r.recipe_output_of) == bytes_view(e.recipe_output_of),
            r._nonce@ == nonce@,
    {
        EntryData {
            resource_quantity: copy_qty(&e.resource_quantity),
            effort_quantity: copy_qty(&e.effort_quantity),
            action: e.action.clone(),
            note: copy_str(&e.note),
            state: copy_str(&e.note),
            resource_conforms_to: copy_bytes_opt(&e.resource_conforms_to),
            stage: copy_bytes_opt(&e.stage),
            recipe_input_of: copy_bytes_opt(&e.recipe_input_of),
            recipe_output_of: copy_bytes_opt(&e.recipe_output_of),
            _nonce: nonce,
        }
    }

    /// Merges an update request into this recipe flow. `action` is replaced
    /// where given; each other field follows `merge`. The state follows the
    /// request's note, as the note does. The nonce never changes.
    pub fn update_with(&self, e: &UpdateRequest) -> (r: EntryData)
        ensures
            r.action@ == (match e.action {
                Some(a) => a@,
                None => self.action@,
            }),
            str_view(r.note) == merge(str_field(e.note), str_view(self.note)),
            str_view(r.state) == merge(str_field(e.note), str_view(self.note)),
            qty_view(r.resource_quantity) == merge(qty_field(e.resource_quantity), qty_view(self.resource_quantity)),
            qty_view(r.effort_quantity) == merge(qty_field(e.effort_quantity), qty_view(self.effort_quantity)),
            bytes_view(r.resource_conforms_to) == merge(bytes_field(e.resource_conforms_to), bytes_view(self.resource_conforms_to)),
            bytes_view(r.stage) == merge(bytes_field(e.stage), bytes_view(self.stage)),
            bytes_view(r.recipe_input_of) == merge(bytes_field(e.recipe_input_of), bytes_view(self.recipe_input_of)),
            bytes_view(r.recipe_output_of) == merge(bytes_field(e.recipe_output_of), bytes_view(self.recipe_output_of)),
            r._nonce@ == self._nonce@,
    {
        let action = match &e.action {
            Some(a) => a.clone(),
            None => self.action.clone(),
        };
        EntryData {
            resource_quantity: merge_qty(&e.resource_quantity, &self.resource_quantity),
            effort_quantity: merge_qty(&e.effort_quantity, &self.effort_quantity),
            action,
            note: merge_str(&e.note, &self.note),
            state: merge_str(&e.note, &self.note),
            resource_conforms_to: merge_bytes(&e.resource_conforms_to, &self.resource_conforms_to),
            stage: merge_bytes(&e.stage, &self.stage),
            recipe_input_of: merge_bytes(&e.recipe_input_of, &self.recipe_input_of),
            recipe_output_of: merge_bytes(&e.recipe_output_of, &self.recipe_output_of),
            _nonce: crate::bytes::copy_bytes(self._nonce.as_slice()),
        }
    }

    /// Recipe flows carry no rule beyond their types: every one is valid.
    pub fn validate_recipe_flow(&self) -> (r: Result<(), String>)
        ensures
            r is Ok,
    {
        Ok(())
    }
}

} // verus!
