//! A table of resources by number, as a backend keeps them: a number is
//! given out once and never again, and what it names can be taken out once.

use crate::backend::Error;
use crate::types::ResourceId;
use vstd::prelude::*;

verus! {

/// Resources by number. The number of a resource is its place in the table;
/// a place whose resource was taken out stays empty.
pub struct ResourceTable<T> {
    slots: Vec<Option<T>>,
}

impl<T> View for ResourceTable<T> {
    type V = Seq<Option<T>>;

    /// What each number names, or `None` where the resource was taken out.
    closed spec fn view(&self) -> Seq<Option<T>> {
        self.slots@
    }
}

/// What the number names in the table, if it names anything.
pub open spec fn named<T>(table: Seq<Option<T>>, id: ResourceId) -> Option<T> {
    if id < table.len() {
        table[id as int]
    } else {
        None
    }
}

impl<T> ResourceTable<T> {
    /// A table without resources.
    pub fn new() -> (table: Self)
        ensures
            table@ == Seq::<Option<T>>::empty(),
    {
        ResourceTable { slots: Vec::new() }
    }

    /// How many numbers were given out.
    pub fn len(&self) -> (len: usize)
        ensures
            len == self@.len(),
    {
        self.slots.len()
    }

    /// Puts a resource into the table under a number that was never given
    /// out before: the count of those that were. Where every number was
    /// given out, the table stays as it is and the resource comes back.
    pub fn insert(&mut self, resource: T) -> (r: Result<ResourceId, T>)
        ensures
            match r {
                Ok(id) => id == old(self)@.len() && final(self)@ == old(self)@.push(Some(resource)),
                Err(back) => back == resource && old(self)@.len() >= u32::MAX && final(self)@
                    == old(self)@,
            },
    {
        let len = self.slots.len();
        if len >= u32::MAX as usize {
            return Err(resource);
        }
        self.slots.push(Some(resource));
        Ok(len as u32)
    }

    /// The resource that the number names. A number that was never given
    /// out, or whose resource was taken out, is `ResourceNotFound`.
    pub fn get(&self, id: ResourceId) -> (r: Result<&T, Error>)
        ensures
            match r {
                Ok(resource) => named(self@, id) == Some(*resource),
                Err(e) => e == Error::ResourceNotFound && named(self@, id).is_none(),
            },
    {
        let at = id as usize;
        if at >= self.slots.len() {
            return Err(Error::ResourceNotFound);
        }
        match &self.slots[at] {
            Some(resource) => Ok(resource),
            None => Err(Error::ResourceNotFound),
        }
    }

    /// Takes out the resource that the number names, if it names one. The
    /// place stays empty: taking again gives nothing.
    pub fn take(&mut self, id: ResourceId) -> (r: Option<T>)
        ensures
            r == named(old(self)@, id),
            final(self)@ == (if id < old(self)@.len() {
                old(self)@.update(id as int, None)
            } else {
                old(self)@
            }),
    {
        let at = id as usize;
        if at >= self.slots.len() {
            return None;
        }
        let mut taken: Option<T> = None;
        std::mem::swap(&mut self.slots[at], &mut taken);
        taken
    }
}

} // verus!
