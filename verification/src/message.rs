//! The header that every message receiver starts with.
use crate::key::ClassKey;
use vstd::prelude::*;

verus! {

/// What a message is sent to: the handle of the receiver's class. An object
/// carries it as its header, and so does a class, whose class is its metaclass.
#[derive(Clone, Copy, Debug, PartialEq, Eq, Structural)]
pub struct Receiver(pub ClassKey);

impl Receiver {
    pub fn new(class_key: ClassKey) -> (r: Receiver)
        ensures
            r.0 == class_key,
    {
        Receiver(class_key)
    }

    /// The class that the receiver names.
    pub fn class_key(&self) -> (r: ClassKey)
        ensures
            r == self.0,
    {
        self.0
    }
}

/// A record with a receiver header in front of its data.
pub struct Repr<T> {
    pub is_a: Receiver,
    pub data: T,
}

impl<T> Repr<T> {
    pub fn new(class_key: ClassKey, data: T) -> (r: Repr<T>)
        ensures
            r.is_a.0 == class_key,
            r.data == data,
    {
        Repr { is_a: Receiver::new(class_key), data }
    }

    /// Points the header at `class_key`; the data stays as it is.
    pub fn set__is_a(&mut self, class_key: ClassKey)
        ensures
            final(self).is_a.0 == class_key,
            final(self).data == old(self).data,
    {
        self.is_a = Receiver::new(class_key);
    }

    pub fn is_a(&self) -> (r: ClassKey)
        ensures
            r == self.is_a.0,
    {
        self.is_a.0
    }
}

/// The header as it stands in front of instance storage.
pub struct ReprV2<T> {
    pub is_a: Receiver,
    pub data: T,
}

impl<T> ReprV2<T> {
    pub fn new(is_a: ClassKey, data: T) -> (r: ReprV2<T>)
        ensures
            r.is_a.0 == is_a,
            r.data == data,
    {
        ReprV2 { is_a: Receiver::new(is_a), data }
    }

    /// Points the header at `class_key`; the data stays as it is.
    pub fn set__is_a(&mut self, class_key: ClassKey)
        ensures
            final(self).is_a.0 == class_key,
            final(self).data == old(self).data,
    {
        self.is_a = Receiver::new(class_key);
    }

    pub fn is_a(&self) -> (r: ClassKey)
        ensures
            r == self.is_a.0,
    {
        self.is_a.0
    }
}

} // verus!
