//! What the generator knows of a type's functions, and which of them the
//! library marks as special operations.

use vstd::prelude::*;
use crate::gobjects::GStatus;

verus! {

/// A library version, as declared on a function.
#[derive(Clone, Copy, Debug, PartialEq, Eq, Structural)]
pub struct Version {
    pub major: u16,
    pub minor: u16,
    pub patch: u16,
}

/// A function of a type.
pub struct Info {
    /// Name in the generated code.
    pub name: String,
    /// Name of the native function.
    pub glib_name: String,
    pub status: GStatus,
    /// Minimum library version that provides the function.
    pub version: Option<Version>,
    /// Whether the function signals failure through its result.
    pub throws: bool,
}

/// Kinds of special operation that the library may mark on a type.
#[derive(Clone, Copy, Debug, PartialEq, Eq, Structural)]
pub enum Type {
    Compare,
    Copy,
    Equal,
    Free,
    Ref,
    Display,
    Unref,
    Hash,
}

impl Type {
    /// Kinds for which a trait can be synthesised.
    pub open spec fn is_recognized(self) -> bool {
        ||| self == Type::Compare
        ||| self == Type::Equal
        ||| self == Type::Display
        ||| self == Type::Hash
    }
}

pub open spec fn opt_view(o: Option<String>) -> Option<Seq<char>> {
    match o {
        Some(s) => Some(s@),
        None => None,
    }
}

/// Special operations found on one type: the native function of each
/// recognised kind, at most one per kind.
pub struct Infos {
    pub compare: Option<String>,
    pub equal: Option<String>,
    pub display: Option<String>,
    pub hash: Option<String>,
}

impl Infos {
    /// Native name of the function registered for `kind`.
    pub open spec fn name_for(&self, kind: Type) -> Option<Seq<char>> {
        match kind {
            Type::Compare => opt_view(self.compare),
            Type::Equal => opt_view(self.equal),
            Type::Display => opt_view(self.display),
            Type::Hash => opt_view(self.hash),
            _ => None,
        }
    }

    pub open spec fn has(&self, kind: Type) -> bool {
        self.name_for(kind) is Some
    }

    pub fn new() -> (r: Infos)
        ensures
            forall|k: Type| !r.has(k),
    {
        Infos { compare: None, equal: None, display: None, hash: None }
    }

    /// Registers `glib_name` for `kind`; kinds that no trait stands for are
    /// dropped.
    pub fn insert(&mut self, kind: Type, glib_name: String)
        ensures
            forall|k: Type| #[trigger] final(self).name_for(k) == if k == kind && kind.is_recognized() {
                Some(glib_name@)
            } else {
                old(self).name_for(k)
            },
    {
        match kind {
            Type::Compare => self.compare = Some(glib_name),
            Type::Equal => self.equal = Some(glib_name),
            Type::Display => self.display = Some(glib_name),
            Type::Hash => self.hash = Some(glib_name),
            _ => {},
        }
    }

    pub fn has_trait(&self, kind: Type) -> (r: bool)
        ensures
            r == self.has(kind),
    {
        match kind {
            Type::Compare => self.compare.is_some(),
            Type::Equal => self.equal.is_some(),
            Type::Display => self.display.is_some(),
            Type::Hash => self.hash.is_some(),
            _ => false,
        }
    }

    pub fn glib_name(&self, kind: Type) -> (r: Option<&String>)
        ensures
            match r {
                Some(s) => self.name_for(kind) == Some(s@),
                None => self.name_for(kind) is None,
            },
    {
        match kind {
            Type::Compare => self.compare.as_ref(),
            Type::Equal => self.equal.as_ref(),
            Type::Display => self.display.as_ref(),
            Type::Hash => self.hash.as_ref(),
            _ => None,
        }
    }
}

} // verus!
