//! The two read-only queries served to external policy-enforcement callers.
//!
//! A caller outside the engine — typically a smart-contract host — selects a
//! query by its numeric function identifier and hands over a fixed-width
//! name buffer, whose trailing zero bytes are trimmed before the bytes are
//! used as the logical attribute name.  Both queries bound their inputs
//! before reading, rejecting oversized requests with a typed error rather
//! than attempting unbounded work, and neither mutates the store.

use vstd::prelude::*;

use crate::endorsements::any_endorsed;
use crate::errors::ErrorKind;
use crate::identity::MAX_FIELD_LEN;
use crate::state::EngineState;

verus! {

/// The selectable queries, by wire identifier: `0x0001` reads an attribute
/// value, `0x0002` checks for a valid endorsement.
#[derive(Clone, Copy, Debug, PartialEq, Eq, Structural)]
pub enum FuncId {
    ReadAttributeValue,
    CheckValidEndorsement,
}

impl FuncId {
    /// The query selected by the wire identifier, if it names one.
    pub fn try_from_code(func_id: u16) -> (r: Option<FuncId>)
        ensures
            r == if func_id == 0x0001 {
                Some(FuncId::ReadAttributeValue)
            } else if func_id == 0x0002 {
                Some(FuncId::CheckValidEndorsement)
            } else {
                None::<FuncId>
            },
    {
        match func_id {
            0x0001 => Some(FuncId::ReadAttributeValue),
            0x0002 => Some(FuncId::CheckValidEndorsement),
            _ => None,
        }
    }
}

/// The buffer with its trailing zero bytes removed.
pub open spec fn trimmed_name(s: Seq<u8>) -> Seq<u8>
    decreases s.len(),
{
    if s.len() > 0 && s.last() == 0 {
        trimmed_name(s.drop_last())
    } else {
        s
    }
}

/// Trims the trailing zero bytes of a fixed-width name buffer, leaving the
/// logical attribute name.
pub fn convert_slice_u8_to_vec_u8(input: &Vec<u8>) -> (r: Vec<u8>)
    ensures
        r@ == trimmed_name(input@),
{
    let mut end = input.len();
    proof {
        assert(input@.take(input@.len() as int) =~= input@);
    }
    while end > 0 && input[end - 1] == 0
        invariant
            end <= input@.len(),
            trimmed_name(input@) == trimmed_name(input@.take(end as int)),
        decreases end,
    {
        proof {
            assert(input@.take(end as int).last() == input@[end - 1]);
            assert(input@.take(end as int).drop_last() =~= input@.take(end - 1));
        }
        end = end - 1;
    }
    let mut r: Vec<u8> = Vec::new();
    let mut i: usize = 0;
    while i < end
        invariant
            i <= end,
            end <= input@.len(),
            r@ == input@.take(end as int).take(i as int),
        decreases end - i,
    {
        r.push(input[i]);
        proof {
            assert(r@ =~= input@.take(end as int).take(i as int + 1));
        }
        i = i + 1;
    }
    proof {
        assert(input@.take(end as int).take(end as int) =~= input@.take(end as int));
        if end > 0 {
            assert(input@.take(end as int).last() == input@[end - 1]);
        }
        assert(trimmed_name(input@.take(end as int)) == input@.take(end as int));
    }
    r
}

/// The engine's chain-extension facade: the narrow query interface an
/// external smart-contract host invokes.
#[derive(Default)]
pub struct AbacChainExtension;

impl AbacChainExtension {
    /// Reads the current value of the named attribute: the stored value, or
    /// empty if the name does not resolve.  Only an oversized name buffer
    /// is an error.
    pub fn read_attribute_value(
        state: &EngineState,
        identity: &Vec<u8>,
        attr_name: &Vec<u8>,
    ) -> (r: Result<Vec<u8>, ErrorKind>)
        requires
            state.wf(),
            identity@.len() <= 0xffffffff,
        ensures
            attr_name@.len() > MAX_FIELD_LEN ==> r == Err::<Vec<u8>, ErrorKind>(
                ErrorKind::InputOverflow,
            ),
            attr_name@.len() <= MAX_FIELD_LEN ==> (r matches Ok(v) && v@ == (
            match state@.resolve(identity@, trimmed_name(attr_name@)) {
                Some(rec) => rec.value,
                None => Seq::<u8>::empty(),
            })),
    {
        if attr_name.len() > MAX_FIELD_LEN {
            return Err(ErrorKind::InputOverflow);
        }
        let key = convert_slice_u8_to_vec_u8(attr_name);
        proof {
            lemma_trimmed_name_shorter(attr_name@);
        }
        let found = state.resolve_current(identity, &key);
        match found {
            Some(record) => Ok(record.value),
            None => Ok(Vec::new()),
        }
    }

    /// Whether any of the listed endorsers holds an unexpired endorsement
    /// of the named attribute.  An oversized name buffer or endorser list
    /// is an error.
    pub fn check_valid_endorsement(
        state: &EngineState,
        identity: &Vec<u8>,
        attr_name: &Vec<u8>,
        endorsers: &Vec<Vec<u8>>,
        now_height: u64,
    ) -> (r: Result<bool, ErrorKind>)
        requires
            state.wf(),
        ensures
            r == if attr_name@.len() > MAX_FIELD_LEN || endorsers@.len() > MAX_FIELD_LEN {
                Err::<bool, ErrorKind>(ErrorKind::InputOverflow)
            } else {
                Ok::<bool, ErrorKind>(
                    any_endorsed(
                        state@,
                        identity@,
                        trimmed_name(attr_name@),
                        endorsers@.map_values(|e: Vec<u8>| e@),
                        now_height,
                    ),
                )
            },
    {
        if attr_name.len() > MAX_FIELD_LEN {
            return Err(ErrorKind::InputOverflow);
        }
        if endorsers.len() > MAX_FIELD_LEN {
            return Err(ErrorKind::InputOverflow);
        }
        let key = convert_slice_u8_to_vec_u8(attr_name);
        Ok(state.is_validly_endorsed(identity, &key, endorsers, now_height))
    }
}

/// A trimmed name is no longer than its buffer.
pub proof fn lemma_trimmed_name_shorter(s: Seq<u8>)
    ensures
        trimmed_name(s).len() <= s.len(),
    decreases s.len(),
{
    if s.len() > 0 && s.last() == 0 {
        lemma_trimmed_name_shorter(s.drop_last());
    }
}

} // verus!
