//! Everything one generation run reads: the library, its class hierarchy
//! and the status registry.

use vstd::prelude::*;
use crate::gobjects::{GObjects, GStatus};
use crate::library::{ClassHierarchy, Library, TypeId};

verus! {

pub struct Env {
    pub library: Library,
    pub class_hierarchy: ClassHierarchy,
    pub config: GObjects,
}

impl Env {
    /// The registry is well formed and every supertype that the hierarchy
    /// lists is a type of the library.
    pub open spec fn wf(&self) -> bool {
        &&& self.config.wf()
        &&& forall|i: int, k: int|
            0 <= i < self.class_hierarchy.entries@.len()
                && 0 <= k < self.class_hierarchy.entries@[i].supertypes@.len()
                ==> self.library.has_type(#[trigger] self.class_hierarchy.entries@[i].supertypes@[k])
    }

    /// The status of a type, looked up by its fully qualified name.
    pub open spec fn status_of_type(&self, t: TypeId) -> GStatus {
        self.config.status_of(self.library.full_name_of(t))
    }

    pub fn type_status(&self, name: &str) -> (r: GStatus)
        requires
            self.config.wf(),
        ensures
            r == self.config.status_of(name@),
    {
        self.config.status(name)
    }
}

} // verus!
