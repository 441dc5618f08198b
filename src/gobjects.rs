//! Per-entity inclusion policy: the status of each named object.

use vstd::prelude::*;
use crate::text::str_eq;

verus! {

/// How the generator treats an entity.
#[derive(Clone, Copy, Debug, PartialEq, Eq, Structural)]
pub enum GStatus {
    /// Written by hand; already present in the output.
    Manual,
    Generate,
    Comment,
    Ignore,
}

impl GStatus {
    /// Whether the entity is left out entirely.
    pub open spec fn is_ignored(self) -> bool {
        self == GStatus::Ignore
    }

    /// Whether the entity is generated, and so is a build dependency.
    pub open spec fn is_generated(self) -> bool {
        self == GStatus::Generate
    }

    pub fn ignored(&self) -> (r: bool)
        ensures
            r == self.is_ignored(),
    {
        match self {
            GStatus::Ignore => true,
            _ => false,
        }
    }

    pub fn need_generate(&self) -> (r: bool)
        ensures
            r == self.is_generated(),
    {
        match self {
            GStatus::Generate => true,
            _ => false,
        }
    }

    /// Parses the lower-case name of a status.
    pub fn parse(s: &str) -> (r: Result<GStatus, String>)
        ensures
            match r {
                Ok(st) => status_named(s@) == Some(st),
                Err(e) => status_named(s@) is None && e@ == "Wrong object status"@,
            },
    {
        if str_eq(s, "manual") {
            Ok(GStatus::Manual)
        } else if str_eq(s, "generate") {
            Ok(GStatus::Generate)
        } else if str_eq(s, "comment") {
            Ok(GStatus::Comment)
        } else if str_eq(s, "ignore") {
            Ok(GStatus::Ignore)
        } else {
            Err(String::from_str("Wrong object status"))
        }
    }
}

/// The status whose lower-case name is `s`, if any.
pub open spec fn status_named(s: Seq<char>) -> Option<GStatus> {
    if s == "manual"@ {
        Some(GStatus::Manual)
    } else if s == "generate"@ {
        Some(GStatus::Generate)
    } else if s == "comment"@ {
        Some(GStatus::Comment)
    } else if s == "ignore"@ {
        Some(GStatus::Ignore)
    } else {
        None
    }
}

impl std::str::FromStr for GStatus {
    type Err = String;

    fn from_str(s: &str) -> (r: Result<GStatus, String>)
        ensures
            match r {
                Ok(st) => status_named(s@) == Some(st),
                Err(e) => status_named(s@) is None && e@ == "Wrong object status"@,
            },
    {
        GStatus::parse(s)
    }
}

impl Default for GStatus {
    /// An entity with no explicit status is ignored.
    fn default() -> (r: GStatus)
        ensures
            r == GStatus::Ignore,
    {
        GStatus::Ignore
    }
}

} // verus!

verus! {

/// An entity named in the configuration, with the status it was given.
#[derive(Clone, Debug)]
pub struct GObject {
    pub name: String,
    pub status: GStatus,
}

impl Default for GObject {
    fn default() -> (r: GObject)
        ensures
            r.name@ == "Default"@,
            r.status == GStatus::Ignore,
    {
        GObject { name: String::from_str("Default"), status: GStatus::Ignore }
    }
}

/// Builds the entry for an object named `name`: a status text that names no
/// status, or none at all, gives the default status.
pub fn object_from_entry(name: String, status: Option<&str>) -> (r: GObject)
    ensures
        r.name@ == name@,
        r.status == match status {
            Some(s) => match status_named(s@) {
                Some(st) => st,
                None => GStatus::Ignore,
            },
            None => GStatus::Ignore,
        },
{
    let status = match status {
        Some(s) => match GStatus::parse(s) {
            Ok(st) => st,
            Err(_) => GStatus::Ignore,
        },
        None => GStatus::Ignore,
    };
    GObject { name, status }
}

/// The status registry: at most one object per name.
pub struct GObjects {
    objects: Vec<GObject>,
}

impl View for GObjects {
    type V = Map<Seq<char>, GStatus>;

    closed spec fn view(&self) -> Map<Seq<char>, GStatus> {
        Map::new(
            |k: Seq<char>| exists|i: int| 0 <= i < self.objects@.len() && self.objects@[i].name@ == k,
            |k: Seq<char>|
                self.objects@[choose|i: int|
                    0 <= i < self.objects@.len() && self.objects@[i].name@ == k].status,
        )
    }
}

impl GObjects {
    /// Names are unique.
    pub closed spec fn wf(&self) -> bool {
        forall|i: int, j: int|
            0 <= i < self.objects@.len() && 0 <= j < self.objects@.len() && i != j
                ==> self.objects@[i].name@ != self.objects@[j].name@
    }

    /// The status of `name`; an entity that is not listed is ignored.
    pub open spec fn status_of(&self, name: Seq<char>) -> GStatus {
        if self@.contains_key(name) {
            self@[name]
        } else {
            GStatus::Ignore
        }
    }

    pub fn new() -> (r: GObjects)
        ensures
            r.wf(),
            r@ == Map::<Seq<char>, GStatus>::empty(),
    {
        let r = GObjects { objects: Vec::new() };
        assert(r@ =~= Map::<Seq<char>, GStatus>::empty());
        r
    }

    fn position(&self, name: &str) -> (r: Option<usize>)
        requires
            self.wf(),
        ensures
            match r {
                Some(i) => i < self.objects@.len() && self.objects@[i as int].name@ == name@
                    && self@.contains_key(name@) && self@[name@] == self.objects@[i as int].status,
                None => !self@.contains_key(name@),
            },
    {
        let mut i: usize = 0;
        while i < self.objects.len()
            invariant
                self.wf(),
                i <= self.objects@.len(),
                forall|j: int| 0 <= j < i ==> self.objects@[j].name@ != name@,
            decreases self.objects@.len() - i,
        {
            if str_eq(self.objects[i].name.as_str(), name) {
                let ghost k = choose|k: int|
                    0 <= k < self.objects@.len() && self.objects@[k].name@ == name@;
                assert(0 <= i < self.objects@.len() && self.objects@[i as int].name@ == name@);
                assert(k == i);
                return Some(i);
            }
            i += 1;
        }
        None
    }

    pub fn contains(&self, name: &str) -> (r: bool)
        requires
            self.wf(),
        ensures
            r == self@.contains_key(name@),
    {
        self.position(name).is_some()
    }

    pub fn status(&self, name: &str) -> (r: GStatus)
        requires
            self.wf(),
        ensures
            r == self.status_of(name@),
    {
        match self.position(name) {
            Some(i) => self.objects[i].status,
            None => GStatus::Ignore,
        }
    }

    /// Adds `object`, replacing an earlier object of the same name.
    pub fn insert(&mut self, object: GObject)
        requires
            old(self).wf(),
        ensures
            final(self).wf(),
            final(self)@ == old(self)@.insert(object.name@, object.status),
    {
        let ghost before = self.objects@;
        let ghost key = object.name@;
        let ghost st = object.status;
        match self.position(object.name.as_str()) {
            Some(i) => {
                self.objects.set(i, object);
                assert forall|k: Seq<char>| #[trigger] self@.contains_key(k)
                    == old(self)@.insert(key, st).contains_key(k) by {
                    if k != key {
                        if old(self)@.contains_key(k) {
                            let j = choose|j: int| 0 <= j < before.len() && before[j].name@ == k;
                            assert(self.objects@[j].name@ == k);
                        }
                    } else {
                        assert(self.objects@[i as int].name@ == k);
                    }
                }
                assert forall|k: Seq<char>| self@.contains_key(k) implies
                    #[trigger] self@[k] == old(self)@.insert(key, st)[k] by {
                    let j = choose|j: int|
                        0 <= j < self.objects@.len() && self.objects@[j].name@ == k;
                    if k == key {
                        assert(j == i);
                    } else {
                        let j2 = choose|j2: int| 0 <= j2 < before.len() && before[j2].name@ == k;
                        assert(self.objects@[j2].name@ == k);
                        assert(j2 == j);
                    }
                }
                assert(self@ =~= old(self)@.insert(key, st));
            },
            None => {
                self.objects.push(object);
                let ghost n = before.len();
                assert forall|k: Seq<char>| #[trigger] self@.contains_key(k)
                    == old(self)@.insert(key, st).contains_key(k) by {
                    if k != key {
                        if old(self)@.contains_key(k) {
                            let j = choose|j: int| 0 <= j < before.len() && before[j].name@ == k;
                            assert(self.objects@[j].name@ == k);
                        }
                    } else {
                        assert(self.objects@[n as int].name@ == k);
                    }
                }
                assert forall|k: Seq<char>| self@.contains_key(k) implies
                    #[trigger] self@[k] == old(self)@.insert(key, st)[k] by {
                    let j = choose|j: int|
                        0 <= j < self.objects@.len() && self.objects@[j].name@ == k;
                    if k == key {
                        assert(j == n);
                    } else {
                        let j2 = choose|j2: int| 0 <= j2 < before.len() && before[j2].name@ == k;
                        assert(self.objects@[j2].name@ == k);
                        assert(j2 == j);
                    }
                }
                assert(self@ =~= old(self)@.insert(key, st));
            },
        }
    }
}

pub open spec fn name_views(names: Seq<String>) -> Seq<Seq<char>> {
    names.map_values(|n: String| n@)
}

/// `m` with each of `names` given status `Ignore`.
pub open spec fn with_ignored(m: Map<Seq<char>, GStatus>, names: Seq<Seq<char>>) -> Map<Seq<char>, GStatus>
    decreases names.len(),
{
    if names.len() == 0 {
        m
    } else {
        with_ignored(m, names.drop_last()).insert(names.last(), GStatus::Ignore)
    }
}

/// No name of `names` is in `m`, and none comes twice.
pub open spec fn all_new(m: Map<Seq<char>, GStatus>, names: Seq<Seq<char>>) -> bool {
    forall|i: int| 0 <= i < names.len() ==> {
        &&& !m.contains_key(#[trigger] names[i])
        &&& forall|j: int| 0 <= j < i ==> names[j] != names[i]
    }
}

proof fn lemma_with_ignored_keys(m: Map<Seq<char>, GStatus>, names: Seq<Seq<char>>, x: Seq<char>)
    ensures
        with_ignored(m, names).contains_key(x)
            <==> (m.contains_key(x) || exists|j: int| 0 <= j < names.len() && names[j] == x),
    decreases names.len(),
{
    if names.len() > 0 {
        lemma_with_ignored_keys(m, names.drop_last(), x);
        if exists|j: int| 0 <= j < names.len() && names[j] == x {
            let j = choose|j: int| 0 <= j < names.len() && names[j] == x;
            if j < names.len() - 1 {
                assert(names.drop_last()[j] == x);
            }
        }
        if exists|j: int| 0 <= j < names.drop_last().len() && names.drop_last()[j] == x {
            let j = choose|j: int| 0 <= j < names.drop_last().len() && names.drop_last()[j] == x;
            assert(names[j] == x);
        }
    }
}

proof fn lemma_all_new_extends(m: Map<Seq<char>, GStatus>, s: Seq<Seq<char>>, x: Seq<char>)
    requires
        all_new(m, s),
        !m.contains_key(x),
        !(exists|j: int| 0 <= j < s.len() && s[j] == x),
    ensures
        all_new(m, s.push(x)),
{
    let t = s.push(x);
    assert forall|a: int| 0 <= a < t.len() implies {
        &&& !m.contains_key(#[trigger] t[a])
        &&& forall|b: int| 0 <= b < a ==> t[b] != t[a]
    } by {
        assert forall|b: int| 0 <= b < a implies t[b] != t[a] by {
            assert(t[b] == s[b]);
            if a < s.len() {
                assert(t[a] == s[a]);
            }
        }
        if a < s.len() {
            assert(t[a] == s[a]);
        }
    }
}

proof fn lemma_all_new_fails(m: Map<Seq<char>, GStatus>, s: Seq<Seq<char>>, x: Seq<char>)
    requires
        m.contains_key(x) || exists|j: int| 0 <= j < s.len() && s[j] == x,
    ensures
        !all_new(m, s.push(x)),
{
    let t = s.push(x);
    assert(t[s.len() as int] == x);
    if !m.contains_key(x) {
        let j = choose|j: int| 0 <= j < s.len() && s[j] == x;
        assert(t[j] == t[s.len() as int]);
    }
}

/// Marks each of `names` as ignored. A name that is already in the registry,
/// or that comes a second time, stops the work: it is returned, and the
/// names before it have been added.
pub fn add_status_shorthand(objects: &mut GObjects, names: &[String]) -> (r: Result<(), String>)
    requires
        old(objects).wf(),
    ensures
        final(objects).wf(),
        match r {
            Ok(()) => all_new(old(objects)@, name_views(names@))
                && final(objects)@ == with_ignored(old(objects)@, name_views(names@)),
            Err(n) => exists|k: int|
                0 <= k < names@.len()
                    && all_new(old(objects)@, name_views(names@).take(k))
                    && !all_new(old(objects)@, name_views(names@).take(k + 1))
                    && final(objects)@ == with_ignored(old(objects)@, name_views(names@).take(k))
                    && n@ == names@[k]@,
        },
{
    let ghost start = objects@;
    let ghost v = name_views(names@);
    let mut i: usize = 0;
    while i < names.len()
        invariant
            i <= names@.len(),
            v == name_views(names@),
            start == old(objects)@,
            objects.wf(),
            objects@ == with_ignored(start, v.take(i as int)),
            all_new(start, v.take(i as int)),
        decreases names@.len() - i,
    {
        let name = &names[i];
        proof {
            lemma_with_ignored_keys(start, v.take(i as int), name@);
            assert(v.take(i + 1) =~= v.take(i as int).push(name@));
        }
        if objects.contains(name.as_str()) {
            proof {
                lemma_all_new_fails(start, v.take(i as int), name@);
                assert(!all_new(start, v.take(i + 1)));
            }
            let n = name.clone();
            assert(n@ == names@[i as int]@);
            assert(all_new(start, v.take(i as int)));
            assert(0 <= i < names@.len() && all_new(old(objects)@, name_views(names@).take(i as int))
                && !all_new(old(objects)@, name_views(names@).take(i + 1))
                && objects@ == with_ignored(old(objects)@, name_views(names@).take(i as int))
                && n@ == names@[i as int]@);
            return Err(n);
        }
        objects.insert(GObject { name: name.clone(), status: GStatus::Ignore });
        proof {
            lemma_all_new_extends(start, v.take(i as int), name@);
            assert(v.take(i + 1).drop_last() =~= v.take(i as int));
        }
        i += 1;
    }
    assert(v.take(names@.len() as int) =~= v);
    Ok(())
}

} // verus!
