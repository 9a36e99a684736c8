//! The HTTP method set and the per-node handler table.

use vstd::prelude::*;

verus! {

/// The HTTP methods that a node in the routing tree can carry a handler for.
/// Each method is an independent slot in a node's handler table.
#[derive(Clone, Copy, PartialEq, Eq, Structural, Debug)]
pub enum Method {
    Get,
    Post,
    Put,
    Delete,
    Patch,
    Head,
    Options,
}

/// The table with every slot empty.
pub open spec fn table_empty<E>() -> MethodTable<E> {
    MethodTable {
        get: None,
        post: None,
        put: None,
        delete: None,
        patch: None,
        head: None,
        options: None,
    }
}

/// The per-method handler table held by one node of the routing tree.
/// Every slot starts empty; registration fills a slot at most once.
pub struct MethodTable<E> {
    pub get: Option<E>,
    pub post: Option<E>,
    pub put: Option<E>,
    pub delete: Option<E>,
    pub patch: Option<E>,
    pub head: Option<E>,
    pub options: Option<E>,
}

impl<E> MethodTable<E> {
    /// The handler registered for `m`, if any.
    pub open spec fn entry(self, m: Method) -> Option<E> {
        match m {
            Method::Get => self.get,
            Method::Post => self.post,
            Method::Put => self.put,
            Method::Delete => self.delete,
            Method::Patch => self.patch,
            Method::Head => self.head,
            Method::Options => self.options,
        }
    }

    /// The table with slot `m` set to `e` and every other slot unchanged.
    pub open spec fn with_entry(self, m: Method, e: E) -> MethodTable<E> {
        match m {
            Method::Get => MethodTable { get: Some(e), ..self },
            Method::Post => MethodTable { post: Some(e), ..self },
            Method::Put => MethodTable { put: Some(e), ..self },
            Method::Delete => MethodTable { delete: Some(e), ..self },
            Method::Patch => MethodTable { patch: Some(e), ..self },
            Method::Head => MethodTable { head: Some(e), ..self },
            Method::Options => MethodTable { options: Some(e), ..self },
        }
    }

    /// A table with every slot empty.
    pub fn empty() -> (t: MethodTable<E>)
        ensures
            t == table_empty::<E>(),
            forall|m: Method| t.entry(m) is None,
    {
        MethodTable { get: None, post: None, put: None, delete: None, patch: None, head: None, options: None }
    }

    /// A reference to the handler registered for `m`, if any.
    pub fn find(&self, m: Method) -> (r: Option<&E>)
        ensures
            match r {
                Some(e) => self.entry(m) == Some(*e),
                None => self.entry(m) is None,
            },
    {
        match m {
            Method::Get => self.get.as_ref(),
            Method::Post => self.post.as_ref(),
            Method::Put => self.put.as_ref(),
            Method::Delete => self.delete.as_ref(),
            Method::Patch => self.patch.as_ref(),
            Method::Head => self.head.as_ref(),
            Method::Options => self.options.as_ref(),
        }
    }

    /// Fills the slot for `m` with `e`; refuses when the slot is already taken,
    /// leaving the table unchanged.
    pub fn try_set(&mut self, m: Method, e: E) -> (ok: bool)
        ensures
            ok == (old(self).entry(m) is None),
            ok ==> *final(self) == old(self).with_entry(m, e),
            !ok ==> *final(self) == *old(self),
    {
        match m {
            Method::Get => {
                if self.get.is_none() {
                    self.get = Some(e);
                    true
                } else {
                    false
                }
            },
            Method::Post => {
                if self.post.is_none() {
                    self.post = Some(e);
                    true
                } else {
                    false
                }
            },
            Method::Put => {
                if self.put.is_none() {
                    self.put = Some(e);
                    true
                } else {
                    false
                }
            },
            Method::Delete => {
                if self.delete.is_none() {
                    self.delete = Some(e);
                    true
                } else {
                    false
                }
            },
            Method::Patch => {
                if self.patch.is_none() {
                    self.patch = Some(e);
                    true
                } else {
                    false
                }
            },
            Method::Head => {
                if self.head.is_none() {
                    self.head = Some(e);
                    true
                } else {
                    false
                }
            },
            Method::Options => {
                if self.options.is_none() {
                    self.options = Some(e);
                    true
                } else {
                    false
                }
            },
        }
    }
}

} // verus!
