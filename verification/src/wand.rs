//! Types of the pop api: ids of objects and read or write references to them.
use vstd::prelude::*;
use std::marker::PhantomData;

verus! {

/// Marks the object types of a pop instance.
pub trait PopTrait {}

/// A typed id of an object of a pop instance.
pub struct Id<I, T: PopTrait> {
    pub id: u64,
    /// Makes sure that the object was created inside a specific pop instance.
    ticket: u64,
    _phantom: PhantomData<T>,
    _phantom_identity: PhantomData<I>,
}

impl<I, T: PopTrait> Id<I, T> {
    pub fn new(id: u64, ticket: u64) -> (r: Id<I, T>)
        ensures
            r.id_value() == id,
            r.ticket() == ticket,
    {
        Id { id, ticket, _phantom: PhantomData, _phantom_identity: PhantomData }
    }

    pub closed spec fn id_value(&self) -> u64 {
        self.id
    }

    pub closed spec fn ticket(&self) -> u64 {
        self.ticket
    }

    /// The id without its type.
    pub fn erase(&self) -> (r: AnyId)
        ensures
            r.id == self.id_value(),
    {
        AnyId { id: self.id }
    }
}

/// An id of an object of any type.
pub struct AnyId {
    pub id: u64,
}

/// The storage of a pop instance.
pub struct PopStore {}

/// A type-erased object returned by the pop api.
pub struct AnyPop {}

/// A reference to a read or a write instance of an object.
pub enum Pop {
    Read(AnyPop),
    Write(AnyPop),
}

impl Pop {
    pub fn is_write(&self) -> (r: bool)
        ensures
            r == (*self is Write),
    {
        match self {
            Pop::Write(_) => true,
            Pop::Read(_) => false,
        }
    }
}

/// The scope of changes that an undo reverts together.
pub struct UndoScope {}

/// The pop api.
pub trait PopApi {
    /// The name of the pop instance.
    fn name(&self) -> &'static str;

    fn read(&self, id: AnyId) -> Pop;

    /// A new write instance of the object.
    fn write(&self, id: AnyId) -> Pop;

    /// Commits a change to the underlying storage.
    fn commit(&self, pop: Pop, undo_scope: Option<UndoScope>);

    fn undo_scope(&self) -> UndoScope;

    fn create_object(&self, undo_scope: Option<UndoScope>) -> AnyId;

    /// The extension function of the pop instance.
    fn get_aspect(&self);
}

} // verus!
