use vstd::prelude::*;

verus! {

/// A slot that holds at most one value.
pub struct Cache<T> {
    inner: Option<T>,
}

impl<T> View for Cache<T> {
    type V = Option<T>;

    closed spec fn view(&self) -> Option<T> {
        self.inner
    }
}

impl<T> Cache<T> {
    /// An empty slot.
    pub fn new() -> (r: Self)
        ensures
            r@ == None::<T>,
    {
        Self { inner: None }
    }

    /// A slot holding `value`.
    pub fn with_init(value: T) -> (r: Self)
        ensures
            r@ == Some(value),
    {
        Self { inner: Some(value) }
    }

    /// The held value, if any.
    pub fn read(&self) -> (r: Option<&T>)
        ensures
            r is Some <==> self@ is Some,
            r is Some ==> *r->0 == self@->0,
    {
        self.inner.as_ref()
    }

    /// A mutable borrow of the held value, if any.
    pub fn read_mut(&mut self) -> (r: Option<&mut T>)
        ensures
            match old(self)@ {
                None => r is None && final(self)@ is None,
                Some(v) => r is Some && *r->0 == v && final(self)@ == Some(*final(r->0)),
            },
    {
        self.inner.as_mut()
    }

    /// Stores `value`, replacing what was held.
    pub fn write(&mut self, value: T)
        ensures
            final(self)@ == Some(value),
    {
        self.inner = Some(value)
    }

    /// Stores `value` when the slot is empty, or when `predicate` holds of
    /// the held value and `value`; returns whether it stored.
    pub fn write_if<P>(&mut self, value: T, predicate: P) -> (r: bool) where
        P: FnOnce(&T, &T) -> bool,

        requires
            old(self)@ matches Some(cur) ==> predicate.requires((&cur, &value)),
        ensures
            old(self)@ is None ==> r && final(self)@ == Some(value),
            old(self)@ matches Some(cur) ==> predicate.ensures((&cur, &value), r),
            r ==> final(self)@ == Some(value),
            !r ==> final(self)@ == old(self)@,
    {
        let Some(inner) = self.inner.as_ref() else {
            self.write(value);
            return true;
        };

        if predicate(inner, &value) {
            self.write(value);
            true
        } else {
            false
        }
    }

    /// Whether nothing is held.
    pub fn is_empty(&self) -> (r: bool)
        ensures
            r == (self@ is None),
    {
        self.inner.is_none()
    }

    /// Empties the slot and hands back what it held.
    pub fn clear(&mut self) -> (r: Option<T>)
        ensures
            r == old(self)@,
            final(self)@ is None,
    {
        self.inner.take()
    }
}

} // verus!
