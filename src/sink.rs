//! Destinations that generated text is written to.

use vstd::prelude::*;

verus! {

/// A sequential text destination. Whether it takes a fragment, and the
/// error with which it refuses one, depend on what it took before; a write
/// does not change that policy.
pub trait Sink: Sized {
    type Error;

    /// The fragments taken so far, in order.
    spec fn written(&self) -> Seq<Seq<char>>;

    /// Whether `s` is taken after the fragments `done`.
    spec fn accepts(&self, done: Seq<Seq<char>>, s: Seq<char>) -> bool;

    /// The error with which `s` is refused after the fragments `done`.
    spec fn refusal(&self, done: Seq<Seq<char>>, s: Seq<char>) -> Self::Error;

    fn write_str(&mut self, s: &str) -> (r: Result<(), Self::Error>)
        ensures
            r is Ok <==> old(self).accepts(old(self).written(), s@),
            r is Ok ==> final(self).written() == old(self).written().push(s@),
            r matches Err(e) ==> final(self).written() == old(self).written()
                && e == old(self).refusal(old(self).written(), s@),
            forall|d: Seq<Seq<char>>, x: Seq<char>|
                #[trigger] final(self).accepts(d, x) == old(self).accepts(d, x),
            forall|d: Seq<Seq<char>>, x: Seq<char>|
                #[trigger] final(self).refusal(d, x) == old(self).refusal(d, x),
    ;
}

/// `a` and `b` take and refuse the same fragments after the same history.
pub open spec fn same_policy<W: Sink>(a: W, b: W) -> bool {
    &&& forall|d: Seq<Seq<char>>, s: Seq<char>| #[trigger] b.accepts(d, s) == a.accepts(d, s)
    &&& forall|d: Seq<Seq<char>>, s: Seq<char>| #[trigger] b.refusal(d, s) == a.refusal(d, s)
}

/// One write of `frag`: taken exactly when the sink accepts it; refused
/// with the sink's own error and nothing taken otherwise.
pub open spec fn wrote_one<W: Sink>(before: W, after: W, r: Result<(), W::Error>, frag: Seq<char>) -> bool {
    &&& r is Ok <==> before.accepts(before.written(), frag)
    &&& r is Ok ==> after.written() == before.written().push(frag)
    &&& r matches Err(e) ==> after.written() == before.written() && e == before.refusal(before.written(), frag)
    &&& same_policy(before, after)
}

/// A buffer refused a fragment because it held as many as its limit.
#[derive(Clone, Copy, Debug, PartialEq, Eq, Structural)]
pub struct BufferFull;

/// An in-memory sink, optionally limited in the number of fragments it takes.
pub struct Buffer {
    fragments: Vec<String>,
    limit: Option<usize>,
}

impl Buffer {
    pub closed spec fn limit_spec(&self) -> Option<usize> {
        self.limit
    }

    /// A buffer that takes every fragment.
    pub fn new() -> (r: Buffer)
        ensures
            r.written() == Seq::<Seq<char>>::empty(),
            r.limit_spec() is None,
    {
        let r = Buffer { fragments: Vec::new(), limit: None };
        assert(r.written() =~= Seq::<Seq<char>>::empty());
        r
    }

    /// A buffer that fails every write once it holds `limit` fragments.
    pub fn with_limit(limit: usize) -> (r: Buffer)
        ensures
            r.written() == Seq::<Seq<char>>::empty(),
            r.limit_spec() == Some(limit),
    {
        let r = Buffer { fragments: Vec::new(), limit: Some(limit) };
        assert(r.written() =~= Seq::<Seq<char>>::empty());
        r
    }

    pub fn len(&self) -> (r: usize)
        ensures
            r == self.written().len(),
    {
        self.fragments.len()
    }

    /// The `i`-th fragment taken.
    pub fn fragment(&self, i: usize) -> (r: String)
        requires
            i < self.written().len(),
        ensures
            r@ == self.written()[i as int],
    {
        self.fragments[i].clone()
    }

    /// Takes `s` unless the buffer already holds as many fragments as its
    /// limit.
    pub fn push_fragment(&mut self, s: &str) -> (r: Result<(), BufferFull>)
        ensures
            r is Ok <==> old(self).accepts(old(self).written(), s@),
            r is Ok ==> final(self).written() == old(self).written().push(s@),
            r is Err ==> final(self).written() == old(self).written(),
            final(self).limit_spec() == old(self).limit_spec(),
    {
        match self.limit {
            Some(n) => {
                if self.fragments.len() >= n {
                    return Err(BufferFull);
                }
            },
            None => {},
        }
        self.fragments.push(String::from_str(s));
        assert(self.written() =~= old(self).written().push(s@));
        Ok(())
    }

    /// All fragments taken, concatenated.
    pub fn text(&self) -> (r: String)
        ensures
            r@ == concat(self.written()),
    {
        let mut r = String::new();
        let mut i: usize = 0;
        while i < self.fragments.len()
            invariant
                i <= self.fragments@.len(),
                r@ == concat(self.written().take(i as int)),
            decreases self.fragments@.len() - i,
        {
            r.append(self.fragments[i].as_str());
            assert(self.written().take(i + 1).drop_last() =~= self.written().take(i as int));
            i += 1;
        }
        assert(self.written().take(self.fragments@.len() as int) =~= self.written());
        r
    }
}

/// The fragments of `s` one after another.
pub open spec fn concat(s: Seq<Seq<char>>) -> Seq<char>
    decreases s.len(),
{
    if s.len() == 0 {
        Seq::empty()
    } else {
        concat(s.drop_last()) + s.last()
    }
}

impl Sink for Buffer {
    type Error = BufferFull;

    open spec fn accepts(&self, done: Seq<Seq<char>>, s: Seq<char>) -> bool {
        match self.limit_spec() {
            Some(n) => done.len() < n,
            None => true,
        }
    }

    open spec fn refusal(&self, done: Seq<Seq<char>>, s: Seq<char>) -> BufferFull {
        BufferFull
    }

    closed spec fn written(&self) -> Seq<Seq<char>> {
        self.fragments@.map_values(|f: String| f@)
    }

    fn write_str(&mut self, s: &str) -> (r: Result<(), BufferFull>) {
        self.push_fragment(s)
    }
}

} // verus!
