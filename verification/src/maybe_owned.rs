use vstd::prelude::*;
use vstd::std_specs::cmp::PartialEqSpec;

verus! {

/// A value that is either owned or borrowed.
///
/// One type stores an owned value, a shared borrow, or an exclusive borrow,
/// and exposes a uniform read/write/clone surface over all three.
pub enum MaybeOwned<'a, T> {
    Owned(T),
    Borrowed(&'a T),
    BorrowedMut(&'a mut T),
}

impl<'a, T> MaybeOwned<'a, T> {
    /// The value this wrapper currently presents, whichever variant holds it.
    pub open spec fn value(self) -> T {
        match self {
            MaybeOwned::Owned(v) => v,
            MaybeOwned::Borrowed(v) => *v,
            MaybeOwned::BorrowedMut(v) => *v,
        }
    }

    /// Returns whether the value is owned.
    pub fn is_owned(&self) -> (r: bool)
        ensures
            r == (self is Owned),
    {
        match self {
            MaybeOwned::Owned(_) => true,
            MaybeOwned::Borrowed(_) => false,
            MaybeOwned::BorrowedMut(_) => false,
        }
    }

    /// Returns whether the value is borrowed.
    pub fn is_borrowed(&self) -> (r: bool)
        ensures
            r == !(self is Owned),
    {
        !self.is_owned()
    }

    /// Unwraps and returns a `Some` value containing the inner value if it is
    /// owned, or `None` if it is borrowed.
    pub fn unwrap(self) -> (r: Option<T>)
        ensures
            self is Owned ==> r == Some(self.value()),
            !(self is Owned) ==> r is None,
    {
        match self {
            MaybeOwned::Owned(value) => Some(value),
            MaybeOwned::Borrowed(_) => None,
            MaybeOwned::BorrowedMut(_) => None,
        }
    }

    /// Unwraps and returns the inner value. If the value is borrowed, it is
    /// cloned.
    pub fn unwrap_or_clone(self) -> (r: T) where T: Clone
        ensures
            cloned::<T>(self.value(), r),
            self is Owned ==> r == self.value(),
    {
        match self {
            MaybeOwned::Owned(value) => value,
            MaybeOwned::Borrowed(value) => value.clone(),
            MaybeOwned::BorrowedMut(value) => (*value).clone(),
        }
    }

    /// Forces the value to be owned. Clones the value if it is borrowed.
    pub fn take_ownership(&mut self) where T: Clone
        ensures
            (*final(self)) is Owned,
            cloned::<T>(old(self).value(), final(self).value()),
            (*old(self)) is Owned ==> *final(self) == *old(self),
    {
        match self {
            MaybeOwned::Owned(_) => {}
            MaybeOwned::Borrowed(value) => {
                let v = (*value).clone();
                *self = MaybeOwned::Owned(v);
            }
            MaybeOwned::BorrowedMut(value) => {
                let v = (**value).clone();
                *self = MaybeOwned::Owned(v);
            }
        }
    }

    /// Borrows the inner value.
    pub fn as_ref(&self) -> (r: &T)
        ensures
            *r == self.value(),
    {
        match self {
            MaybeOwned::Owned(value) => value,
            MaybeOwned::Borrowed(value) => value,
            MaybeOwned::BorrowedMut(value) => value,
        }
    }

    /// Borrows the inner value mutably if the value is mutable, otherwise
    /// returns `None`.
    pub fn as_mut(&mut self) -> (r: Option<&mut T>)
        ensures
            match r {
                Some(v) => {
                    &&& !((*old(self)) is Borrowed)
                    &&& *v == old(self).value()
                    &&& final(self).value() == *final(v)
                    &&& ((*final(self)) is Owned) == ((*old(self)) is Owned)
                    &&& ((*final(self)) is BorrowedMut) == ((*old(self)) is BorrowedMut)
                },
                None => (*old(self)) is Borrowed && *final(self) == *old(self),
            },
    {
        match self {
            MaybeOwned::Owned(value) => Some(value),
            MaybeOwned::Borrowed(_) => None,
            MaybeOwned::BorrowedMut(value) => Some(&mut **value),
        }
    }
}

impl<'a, T> From<T> for MaybeOwned<'a, T> {
    fn from(value: T) -> (r: Self) {
        MaybeOwned::Owned(value)
    }
}

impl<'a, T> vstd::std_specs::convert::FromSpecImpl<T> for MaybeOwned<'a, T> {
    open spec fn obeys_from_spec() -> bool {
        true
    }

    open spec fn from_spec(v: T) -> Self {
        MaybeOwned::Owned(v)
    }
}

impl<'a, T> From<&'a T> for MaybeOwned<'a, T> {
    fn from(value: &'a T) -> (r: Self) {
        MaybeOwned::Borrowed(value)
    }
}

impl<'a, T> vstd::std_specs::convert::FromSpecImpl<&'a T> for MaybeOwned<'a, T> {
    open spec fn obeys_from_spec() -> bool {
        true
    }

    open spec fn from_spec(v: &'a T) -> Self {
        MaybeOwned::Borrowed(v)
    }
}

impl<'a, T> From<&'a mut T> for MaybeOwned<'a, T> {
    fn from(value: &'a mut T) -> (r: Self) {
        MaybeOwned::BorrowedMut(value)
    }
}

impl<'a, T> vstd::std_specs::convert::FromSpecImpl<&'a mut T> for MaybeOwned<'a, T> {
    /// Moving an exclusive borrow into the wrapper reborrows it, and the
    /// reborrow is not spec-equal to the reference it came from, so this
    /// conversion carries no usable `from` contract.
    open spec fn obeys_from_spec() -> bool {
        false
    }

    open spec fn from_spec(v: &'a mut T) -> Self {
        MaybeOwned::BorrowedMut(v)
    }
}

impl<'a, T: PartialEq> PartialEq for MaybeOwned<'a, T> {
    /// Two wrappers are equal iff the values they present are equal, however
    /// each of them is held.
    fn eq(&self, other: &Self) -> (r: bool) {
        match self {
            MaybeOwned::Owned(value) => match other {
                MaybeOwned::Owned(other_value) => *value == *other_value,
                MaybeOwned::Borrowed(other_value) => *value == **other_value,
                MaybeOwned::BorrowedMut(other_value) => *value == **other_value,
            },
            MaybeOwned::Borrowed(value) => match other {
                MaybeOwned::Owned(other_value) => **value == *other_value,
                MaybeOwned::Borrowed(other_value) => **value == **other_value,
                MaybeOwned::BorrowedMut(other_value) => **value == **other_value,
            },
            MaybeOwned::BorrowedMut(value) => match other {
                MaybeOwned::Owned(other_value) => **value == *other_value,
                MaybeOwned::Borrowed(other_value) => **value == **other_value,
                MaybeOwned::BorrowedMut(other_value) => **value == **other_value,
            },
        }
    }
}

impl<'a, T: PartialEq> vstd::std_specs::cmp::PartialEqSpecImpl for MaybeOwned<'a, T> {
    open spec fn obeys_eq_spec() -> bool {
        T::obeys_eq_spec()
    }

    open spec fn eq_spec(&self, other: &Self) -> bool {
        self.value().eq_spec(&other.value())
    }
}

impl<'a, T: Eq> Eq for MaybeOwned<'a, T> {}

impl<'a, T> core::ops::Deref for MaybeOwned<'a, T> {
    type Target = T;

    /// Dereferencing reads the value the wrapper presents, however it is
    /// held.
    fn deref(&self) -> (r: &T)
        ensures
            *r == self.value(),
    {
        match self {
            MaybeOwned::Owned(value) => value,
            MaybeOwned::Borrowed(value) => value,
            MaybeOwned::BorrowedMut(value) => value,
        }
    }
}

impl<'a, T: Clone> Clone for MaybeOwned<'a, T> {
    /// An owned or exclusively borrowed value clones to an owned value; a
    /// shared borrow clones to the same shared borrow.
    fn clone(&self) -> (r: Self)
        ensures
            cloned::<T>(self.value(), r.value()),
            self is Borrowed ==> r == *self,
            !(self is Borrowed) ==> r is Owned,
    {
        match self {
            MaybeOwned::Owned(value) => MaybeOwned::Owned(value.clone()),
            MaybeOwned::Borrowed(value) => MaybeOwned::Borrowed(*value),
            MaybeOwned::BorrowedMut(value) => MaybeOwned::Owned((**value).clone()),
        }
    }
}

} // verus!
