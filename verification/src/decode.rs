use vstd::prelude::*;

use crate::record::{Key, RemoteRecord};

verus! {

/// One decoded child of a remote model, tagged by the primitive kind the
/// reconciler can read.  Children of any other kind are carried as `Other`.
#[derive(Clone, Copy, PartialEq, Eq, Debug, Structural)]
pub enum FieldValue {
    /// A contract-address primitive: the player's identity.
    Address { key: Key },
    /// An eight-bit counter primitive.
    Counter { count: u8 },
    /// A boolean primitive.
    Flag { flag: bool },
    /// Any other child type; never read by this schema.
    Other,
}

/// A decoded remote model: its namespaced name, as raw bytes, and its
/// children in declaration order.
#[derive(Clone, Debug)]
pub struct Model {
    pub name: Vec<u8>,
    pub fields: Vec<FieldValue>,
}

/// Why an event was rejected instead of yielding a record.
#[derive(Clone, Copy, PartialEq, Eq, Debug, Structural)]
pub enum DecodeError {
    /// The event did not carry exactly one model.
    UnexpectedModelCount,
    /// The model's name does not designate a schema this core knows.
    UnrecognizedSchema,
    /// The model's children do not have the `Moves` shape.
    MalformedRecord,
}

/// The one schema name this core recognizes: "Moves", as bytes.
pub open spec fn moves_name() -> Seq<u8> {
    seq![77u8, 111u8, 118u8, 101u8, 115u8]
}

/// Whether a model's namespaced name designates the `Moves` schema: the
/// segment after the last `-` separator equals "Moves".  Since "Moves"
/// itself holds no separator, that is exactly: the whole name is "Moves",
/// or the name ends in "-Moves" (the byte 45 is `-`).
pub open spec fn is_moves_model_name(n: Seq<u8>) -> bool {
    ||| n == moves_name()
    ||| (n.len() >= 6 && n[n.len() - 6] == 45 && n.subrange(n.len() - 5, n.len() as int)
        == moves_name())
}

/// Whether a model's children have the `Moves` shape: an address, then a
/// counter, then a flag; further children are ignored.
pub open spec fn moves_shape_ok(fs: Seq<FieldValue>) -> bool {
    fs.len() >= 3 && fs[0] is Address && fs[1] is Counter && fs[2] is Flag
}

/// The record read off children with the `Moves` shape.
pub open spec fn decoded_record(fs: Seq<FieldValue>) -> RemoteRecord
    recommends
        moves_shape_ok(fs),
{
    RemoteRecord { key: fs[0]->key, remaining: fs[1]->count, can_move: fs[2]->flag }
}

/// What decoding one model yields: a record exactly when the name is the
/// `Moves` schema and the children have the `Moves` shape, else the first
/// applicable rejection.
pub open spec fn decode_model_spec(name: Seq<u8>, fs: Seq<FieldValue>) -> Result<
    RemoteRecord,
    DecodeError,
> {
    if !is_moves_model_name(name) {
        Err(DecodeError::UnrecognizedSchema)
    } else if !moves_shape_ok(fs) {
        Err(DecodeError::MalformedRecord)
    } else {
        Ok(decoded_record(fs))
    }
}

/// Decides whether `name` designates the `Moves` schema.
pub fn is_moves_name(name: &Vec<u8>) -> (r: bool)
    ensures
        r == is_moves_model_name(name@),
{
    let n = name.len();
    if n == 5 {
        let r = name[0] == 77 && name[1] == 111 && name[2] == 118 && name[3] == 101 && name[4]
            == 115;
        proof {
            if r {
                assert(name@ =~= moves_name());
            } else {
                assert(name@ != moves_name());
            }
        }
        r
    } else if n >= 6 {
        let r = name[n - 6] == 45 && name[n - 5] == 77 && name[n - 4] == 111 && name[n - 3] == 118
            && name[n - 2] == 101 && name[n - 1] == 115;
        proof {
            assert(name@ != moves_name());
            if r {
                assert(name@.subrange(n - 5, n as int) =~= moves_name());
            } else {
                if name@.len() >= 6 && name@[n - 6] == 45 && name@.subrange(n - 5, n as int)
                    == moves_name() {
                    assert(name@[n - 5] == moves_name()[0]);
                    assert(name@[n - 4] == moves_name()[1]);
                    assert(name@[n - 3] == moves_name()[2]);
                    assert(name@[n - 2] == moves_name()[3]);
                    assert(name@[n - 1] == moves_name()[4]);
                }
            }
        }
        r
    } else {
        proof {
            assert(name@.len() != moves_name().len());
        }
        false
    }
}

/// Decodes one model: the name must designate the `Moves` schema and the
/// children must have the `Moves` shape.
pub fn decode_model(m: &Model) -> (r: Result<RemoteRecord, DecodeError>)
    ensures
        r == decode_model_spec(m.name@, m.fields@),
{
    if !is_moves_name(&m.name) {
        return Err(DecodeError::UnrecognizedSchema);
    }
    if m.fields.len() < 3 {
        return Err(DecodeError::MalformedRecord);
    }
    let f0 = m.fields[0];
    let f1 = m.fields[1];
    let f2 = m.fields[2];
    match (f0, f1, f2) {
        (
            FieldValue::Address { key },
            FieldValue::Counter { count },
            FieldValue::Flag { flag },
        ) => Ok(RemoteRecord { key, remaining: count, can_move: flag }),
        _ => Err(DecodeError::MalformedRecord),
    }
}

/// Decodes a whole event: it must carry exactly one model, and that model
/// must decode.  Anything else is rejected before it can reach the store.
pub fn decode_event(models: &Vec<Model>) -> (r: Result<RemoteRecord, DecodeError>)
    ensures
        models@.len() == 1 ==> r == decode_model_spec(models@[0].name@, models@[0].fields@),
        models@.len() != 1 ==> r == Err::<RemoteRecord, DecodeError>(
            DecodeError::UnexpectedModelCount,
        ),
{
    if models.len() != 1 {
        return Err(DecodeError::UnexpectedModelCount);
    }
    decode_model(&models[0])
}

} // verus!
