//! Messages whose type is erased: a letter carries a value of any type together with the
//! identifier of that type, so that agents of different types can share one queue.

use crate::routing::same_type;
use std::any::{Any, TypeId};
use vstd::prelude::*;

verus! {

/// A boxed value whose type has been erased.
///
/// The box is a `dyn Any`, a trait the specifications here cannot describe, so the struct's
/// contents are opaque; it is only ever built by `pack` and opened by `unpack`.
#[verifier::external_body]
pub struct Parcel {
    contents: Box<dyn Any>,
}

/// The identifier of type `M`, from `TypeId::of`. Nothing is stated of the value: it depends
/// on the type alone, which a specification here cannot name.
#[verifier::external_body]
pub(crate) fn type_key<M: 'static>() -> TypeId {
    TypeId::of::<M>()
}

/// Boxes `message` with `Box::new` and erases its type.
#[verifier::external_body]
fn pack<M: 'static>(message: M) -> Parcel {
    Parcel { contents: Box::new(message) }
}

/// Takes the value out of `parcel` with `downcast` on the `dyn Any` box: `Some` exactly when
/// the value is an `M`. Nothing is stated, since which type the parcel holds is not modelled.
#[verifier::external_body]
fn unpack<M: 'static>(parcel: Parcel) -> Option<M> {
    match parcel.contents.downcast::<M>() {
        Ok(boxed) => Some(*boxed),
        Err(_) => None,
    }
}

/// A message of some type, with the identifier of that type.
pub struct Letter {
    kind: TypeId,
    parcel: Parcel,
}

impl View for Letter {
    type V = TypeId;

    /// The identifier of the type of the message inside.
    closed spec fn view(&self) -> TypeId {
        self.kind
    }
}

impl Letter {
    /// Wraps `message`, recording the identifier of its type.
    pub fn new<M: 'static>(message: M) -> Letter {
        Letter { kind: type_key::<M>(), parcel: pack(message) }
    }

    /// The identifier of the type of the message inside.
    pub fn kind(&self) -> (k: TypeId)
        ensures
            k == self@,
    {
        self.kind
    }

    /// Whether the message inside is of type `M`.
    pub fn is<M: 'static>(&self) -> bool {
        same_type(&self.kind, &type_key::<M>())
    }

    /// The message inside, when it is of type `M`.
    pub fn take<M: 'static>(self) -> Option<M> {
        unpack::<M>(self.parcel)
    }
}

/// No type identifier occurs twice in `kinds`.
pub open spec fn distinct_kinds(kinds: Seq<TypeId>) -> bool {
    forall|i: int, j: int| 0 <= i < j < kinds.len() ==> kinds[i] != kinds[j]
}

/// The registered types after registering `kind`: unchanged when it is already there,
/// otherwise with `kind` appended.
pub open spec fn with_kind(kinds: Seq<TypeId>, kind: TypeId) -> Seq<TypeId> {
    if kinds.contains(kind) {
        kinds
    } else {
        kinds.push(kind)
    }
}

/// Where `kind` stands in `kinds`, if it does.
pub(crate) fn find_kind(kinds: &Vec<TypeId>, kind: &TypeId) -> (r: Option<usize>)
    ensures
        match r {
            Some(i) => i < kinds@.len() && kinds@[i as int] == *kind,
            None => !kinds@.contains(*kind),
        },
{
    let mut i: usize = 0;
    while i < kinds.len()
        invariant
            i <= kinds@.len(),
            forall|j: int| 0 <= j < i ==> kinds@[j] != *kind,
        decreases kinds@.len() - i,
    {
        if same_type(&kinds[i], kind) {
            return Some(i);
        }
        i = i + 1;
    }
    None
}

/// Registering a type keeps the registered types free of repeats.
pub proof fn lemma_with_kind_distinct(kinds: Seq<TypeId>, kind: TypeId)
    requires
        distinct_kinds(kinds),
    ensures
        distinct_kinds(with_kind(kinds, kind)),
        with_kind(kinds, kind).contains(kind),
{
    if !kinds.contains(kind) {
        assert(kinds.push(kind)[kinds.len() as int] == kind);
    }
}

} // verus!
