//! The embedding registry: named bindings from a registry name to an
//! embedding space, together with the source and destination columns the
//! binding populates.
//!
//! The registry is built once at process start, before any table schema
//! that refers to it is created or opened, and is read-only afterwards.

use vstd::prelude::*;
use crate::embedding::EmbeddingSpace;
use crate::WordStoreError;

verus! {

/// One named binding: the registry name, the space it computes, and the
/// source and destination columns it populates.
pub struct EmbeddingRegistration {
    pub name: String,
    pub space: EmbeddingSpace,
    pub source_column: String,
    pub dest_column: String,
}

/// The spec-level shape of one registration.
pub ghost struct RegistrationView {
    pub name: Seq<char>,
    pub space: EmbeddingSpace,
    pub source_column: Seq<char>,
    pub dest_column: Seq<char>,
}

impl View for EmbeddingRegistration {
    type V = RegistrationView;

    open spec fn view(&self) -> RegistrationView {
        RegistrationView {
            name: self.name@,
            space: self.space,
            source_column: self.source_column@,
            dest_column: self.dest_column@,
        }
    }
}

/// The registry: a list of named bindings with pairwise-distinct names.
pub struct EmbeddingRegistry {
    pub entries: Vec<EmbeddingRegistration>,
}

impl View for EmbeddingRegistry {
    type V = Seq<RegistrationView>;

    open spec fn view(&self) -> Seq<RegistrationView> {
        self.entries@.map_values(|e: EmbeddingRegistration| e@)
    }
}

/// Whether a name is bound in a sequence of registrations.
pub open spec fn name_bound(entries: Seq<RegistrationView>, name: Seq<char>) -> bool {
    exists|i: int| 0 <= i < entries.len() && (#[trigger] entries[i]).name == name
}

impl EmbeddingRegistry {
    /// Well-formed: registered names are pairwise distinct.
    pub open spec fn wf(&self) -> bool {
        forall|i: int, j: int|
            0 <= i < j < self@.len() ==> (#[trigger] self@[i]).name != (#[trigger] self@[j]).name
    }

    /// An empty registry.
    pub fn new() -> (r: EmbeddingRegistry)
        ensures
            r.wf(),
            r@ =~= Seq::<RegistrationView>::empty(),
    {
        EmbeddingRegistry { entries: Vec::new() }
    }

    /// The position of a name's binding, if the name is bound.
    fn position_of(&self, name: &str) -> (r: Option<usize>)
        ensures
            r matches Some(i) ==> i < self@.len() && self@[i as int].name == name@,
            r is None ==> !name_bound(self@, name@),
    {
        let n = self.entries.len();
        let mut i: usize = 0;
        while i < n
            invariant
                n == self.entries@.len(),
                i <= n,
                forall|j: int| 0 <= j < i ==> (#[trigger] self@[j]).name != name@,
        decreases n - i,
        {
            if crate::text::str_eq(self.entries[i].name.as_str(), name) {
                return Some(i);
            }
            i = i + 1;
        }
        None
    }

    /// Registers a binding under a fresh name. Fails with `DuplicateName`,
    /// and leaves the registry unchanged, exactly when the name is already
    /// bound; otherwise the binding is appended.
    pub fn register(&mut self, entry: EmbeddingRegistration) -> (r: Result<(), WordStoreError>)
        requires
            old(self).wf(),
        ensures
            final(self).wf(),
            r is Ok <==> !name_bound(old(self)@, entry@.name),
            r is Ok ==> final(self)@ =~= old(self)@.push(entry@),
            r is Err ==> final(self)@ == old(self)@ && r == Err::<(), WordStoreError>(
                WordStoreError::DuplicateName,
            ),
    {
        match self.position_of(entry.name.as_str()) {
            Some(_) => Err(WordStoreError::DuplicateName),
            None => {
                self.entries.push(entry);
                assert(self@ =~= old(self)@.push(entry@));
                Ok(())
            },
        }
    }

    /// Looks a name up. For a name registered at startup the lookup never
    /// fails: it returns the one binding under that name.
    pub fn lookup(&self, name: &str) -> (r: Option<&EmbeddingRegistration>)
        ensures
            r matches Some(e) ==> name_bound(self@, name@) && e@.name == name@ && self@.contains(
                e@,
            ),
            r is None ==> !name_bound(self@, name@),
    {
        match self.position_of(name) {
            Some(i) => {
                let e = &self.entries[i];
                assert(self@[i as int] == e@);
                Some(e)
            },
            None => None,
        }
    }
}

} // verus!
