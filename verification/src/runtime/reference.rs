//! Following a variable reference such as `a[i].f.g(x)` one step at a time.
//! The caller holds the values; for each step it says what the value under
//! the pointer is (an array and its length, an object, whether it has the
//! field that the step names) and, for an index, which position the index
//! expression gave. The step answers where the pointer goes next, what it
//! changes on the way when the reference is being assigned to, or why the
//! reference cannot be followed.
use crate::parser::tree::VarRefFragment;
use vstd::prelude::*;

verus! {

/// What a step reads of the value under the pointer.
#[derive(Debug, Clone, Copy, PartialEq, Eq, Structural)]
pub struct Pointee {
    /// The number of elements, where the value is an array.
    pub array_len: Option<usize>,
    /// Whether the value is an object, which can be given new fields.
    pub is_object: bool,
    /// Whether the value has a field of the name that the step reads: one
    /// of its own, or a method of its kind of value.
    pub has_field: bool,
}

/// Where the pointer goes.
#[derive(Debug, Clone, Copy, PartialEq, Eq, Structural)]
pub enum RefMove {
    /// To element `index` of the array, after the array has been filled
    /// with nulls up to `grow_to` elements (its own length where it does not
    /// grow).
    Element { index: usize, grow_to: usize },
    /// To the field of the step's name.
    Field,
    /// To a new field of the step's name, holding null, given to the object.
    NewField,
    /// To the result of calling the function in the field of the step's
    /// name.
    CallField,
    /// To the result of calling the function under the pointer.
    CallValue,
}

/// Why a reference cannot be followed.
#[derive(Debug, Clone, Copy, PartialEq, Eq, Structural)]
pub enum RefError {
    /// An index step on a value that is not an array.
    NotAnArray,
    /// An index past the end of an array that is only read.
    IndexOutOfRange,
    /// A method call whose name the value has no field for.
    UnknownMethod,
    /// A property that the value does not have, and that cannot be added:
    /// the reference is only read, or the value is not an object.
    UnknownField,
}

/// The kinds of step, without their arguments.
#[derive(Debug, Clone, Copy, PartialEq, Eq, Structural)]
pub enum StepKind {
    Index,
    Property,
    Method,
    CallSelf,
}

pub open spec fn step_kind(step: VarRefFragment) -> StepKind {
    match step {
        VarRefFragment::IndexInto(_) => StepKind::Index,
        VarRefFragment::ObjectProperty(_) => StepKind::Property,
        VarRefFragment::ObjectCall { .. } => StepKind::Method,
        VarRefFragment::LambdaCall(_) => StepKind::CallSelf,
    }
}

/// One step of a reference. An index step into an array reads the element;
/// where the reference is assigned to and the index is its last step, the
/// array first grows with nulls until the index is inside it. A property
/// step reads the field; where it is missing and the reference is assigned
/// to, an object gets a new null field. A method step calls the field's
/// function; a call step calls the value itself.
pub open spec fn follow_spec(kind: StepKind, index: usize, p: Pointee, assign: bool, last: bool) -> Result<
    RefMove,
    RefError,
> {
    match kind {
        StepKind::Index => match p.array_len {
            None => Err(RefError::NotAnArray),
            Some(len) => if assign && last && index >= len {
                Ok(RefMove::Element { index, grow_to: (index + 1) as usize })
            } else if index < len {
                Ok(RefMove::Element { index, grow_to: len })
            } else {
                Err(RefError::IndexOutOfRange)
            },
        },
        StepKind::Property => if p.has_field {
            Ok(RefMove::Field)
        } else if assign && p.is_object {
            Ok(RefMove::NewField)
        } else {
            Err(RefError::UnknownField)
        },
        StepKind::Method => if p.has_field {
            Ok(RefMove::CallField)
        } else {
            Err(RefError::UnknownMethod)
        },
        StepKind::CallSelf => Ok(RefMove::CallValue),
    }
}

/// One step of following a reference: `index` is the position that an
/// index step's expression gave (unused by other steps), `assign` whether
/// the reference is being assigned to, `last` whether this is its last step.
/// An index of `usize::MAX` cannot be grown to, nor lie inside an array.
pub fn follow(step: &VarRefFragment, index: usize, p: &Pointee, assign: bool, last: bool) -> (r:
    Result<RefMove, RefError>)
    requires
        step_kind(*step) == StepKind::Index ==> index < usize::MAX,
    ensures
        r == follow_spec(step_kind(*step), index, *p, assign, last),
        r matches Ok(RefMove::Element { index: i, grow_to: g }) ==> i < g && (p.array_len
            matches Some(len) && len <= g),
        !assign ==> !(r matches Ok(RefMove::NewField)) && (r matches Ok(
            RefMove::Element { grow_to: g, .. },
        ) ==> p.array_len == Some(g)),
{
    match step {
        VarRefFragment::IndexInto(_) => match p.array_len {
            None => Err(RefError::NotAnArray),
            Some(len) => {
                if assign && last && index >= len {
                    Ok(RefMove::Element { index, grow_to: index + 1 })
                } else if index < len {
                    Ok(RefMove::Element { index, grow_to: len })
                } else {
                    Err(RefError::IndexOutOfRange)
                }
            },
        },
        VarRefFragment::ObjectProperty(_) => {
            if p.has_field {
                Ok(RefMove::Field)
            } else if assign && p.is_object {
                Ok(RefMove::NewField)
            } else {
                Err(RefError::UnknownField)
            }
        },
        VarRefFragment::ObjectCall { .. } => {
            if p.has_field {
                Ok(RefMove::CallField)
            } else {
                Err(RefError::UnknownMethod)
            }
        },
        VarRefFragment::LambdaCall(_) => Ok(RefMove::CallValue),
    }
}

/// Law: following an index reads the element at that index; only the last
/// index of an assignment grows the array, and then exactly to one element
/// past the index; reading never changes anything. A property is read where
/// it exists; a missing one is added (holding null) only by an assignment to
/// an object. A method is called only where the value has it; a call step
/// always calls the value.
pub proof fn law_follow(index: usize, p: Pointee, assign: bool, last: bool)
    ensures
        (p.array_len matches Some(len) && index < len) ==> follow_spec(StepKind::Index, index, p, assign, last)
            == Ok::<RefMove, RefError>(RefMove::Element { index, grow_to: p.array_len->Some_0 }),
        (p.array_len matches Some(len) && index >= len && index < usize::MAX) ==> follow_spec(
            StepKind::Index,
            index,
            p,
            assign,
            last,
        ) == if assign && last {
            Ok::<RefMove, RefError>(RefMove::Element { index, grow_to: (index + 1) as usize })
        } else {
            Err::<RefMove, RefError>(RefError::IndexOutOfRange)
        },
        p.array_len is None ==> follow_spec(StepKind::Index, index, p, assign, last) == Err::<
            RefMove,
            RefError,
        >(RefError::NotAnArray),
        p.has_field ==> follow_spec(StepKind::Property, index, p, assign, last) == Ok::<
            RefMove,
            RefError,
        >(RefMove::Field),
        !p.has_field ==> (follow_spec(StepKind::Property, index, p, assign, last) == Ok::<
            RefMove,
            RefError,
        >(RefMove::NewField) <==> assign && p.is_object),
        follow_spec(StepKind::Method, index, p, assign, last) == if p.has_field {
            Ok::<RefMove, RefError>(RefMove::CallField)
        } else {
            Err::<RefMove, RefError>(RefError::UnknownMethod)
        },
        follow_spec(StepKind::CallSelf, index, p, assign, last) == Ok::<RefMove, RefError>(
            RefMove::CallValue,
        ),
{
}

} // verus!
