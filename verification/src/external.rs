use vstd::prelude::*;

verus! {

/// State of an actor that the actor system does not manage: it is neither
/// laid out with the actor nor persisted. At most one holder owns the
/// content; `steal` hands it on and leaves the old holder empty.
pub struct External<T> {
    maybe_owned: Option<Box<T>>,
}

impl<T> External<T> {
    /// Whether the content is still here.
    pub closed spec fn is_owned(&self) -> bool {
        self.maybe_owned is Some
    }

    /// The content, where it is still here.
    pub closed spec fn content(&self) -> T
        recommends
            self.is_owned(),
    {
        *self.maybe_owned->0
    }

    /// A holder of the given content.
    pub fn new(content: T) -> (e: External<T>)
        ensures
            e.is_owned(),
            e.content() == content,
    {
        External { maybe_owned: Some(Box::new(content)) }
    }

    /// A holder of the content of a box.
    pub fn from_box(content: Box<T>) -> (e: External<T>)
        ensures
            e.is_owned(),
            e.content() == *content,
    {
        External { maybe_owned: Some(content) }
    }

    /// Takes the content out of this holder into a new one. A holder can be
    /// stolen from once.
    pub fn steal(&mut self) -> (e: External<T>)
        requires
            old(self).is_owned(),
        ensures
            e.is_owned(),
            e.content() == old(self).content(),
            !final(self).is_owned(),
    {
        let mut taken: Option<Box<T>> = None;
        core::mem::swap(&mut taken, &mut self.maybe_owned);
        External { maybe_owned: taken }
    }

    /// Whether the content is still here.
    pub fn holds_content(&self) -> (b: bool)
        ensures
            b == self.is_owned(),
    {
        self.maybe_owned.is_some()
    }

    /// The content.
    pub fn get(&self) -> (r: &T)
        requires
            self.is_owned(),
        ensures
            *r == self.content(),
    {
        let b: &Box<T> = self.maybe_owned.as_ref().unwrap();
        &**b
    }

    /// The content, to be changed in place.
    pub fn get_mut(&mut self) -> (r: &mut T)
        requires
            old(self).is_owned(),
        ensures
            *r == old(self).content(),
            final(self).is_owned(),
            final(self).content() == *final(r),
    {
        match &mut self.maybe_owned {
            Some(b) => &mut **b,
            None => vstd::pervasive::unreached(),
        }
    }

    /// Replaces the content.
    pub fn set(&mut self, content: T)
        ensures
            final(self).is_owned(),
            final(self).content() == content,
    {
        self.maybe_owned = Some(Box::new(content));
    }

    /// Ends the holder and hands out its content.
    pub fn into_box(self) -> (b: Box<T>)
        requires
            self.is_owned(),
        ensures
            *b == self.content(),
    {
        self.maybe_owned.unwrap()
    }
}

} // verus!
