//! The scope chain: an arena of scope records indexed by handle, each
//! holding its variable bindings and an optional parent handle. A read
//! walks the chain outward; a plain write lands in the scope written in;
//! a global write lands in the outermost scope and is seen by every later
//! outward read that no nearer binding shadows.

use vstd::prelude::*;
use crate::value::{Value, ValueRepr};

verus! {

pub type Binding = (Seq<char>, ValueRepr);

/// One scope record: its bindings and its parent handle.
struct Frame {
    vars: Vec<(String, Value)>,
    parent: Option<usize>,
}

impl Frame {
    spec fn bindings(self) -> Seq<Binding> {
        frame_view(self.vars@)
    }

    spec fn vals_wf(self) -> bool {
        forall|i: int| 0 <= i < self.vars@.len() ==> (#[trigger] self.vars@[i].1).wf()
    }
}

/// The first binding of `name`, scanning left to right.
pub open spec fn assoc(s: Seq<Binding>, name: Seq<char>) -> Option<ValueRepr>
    decreases s.len(),
{
    if s.len() == 0 {
        Option::<ValueRepr>::None
    } else if s[0].0 == name {
        Some(s[0].1)
    } else {
        assoc(s.skip(1), name)
    }
}

/// The index of the first binding of `name`, or -1.
pub open spec fn find_at(s: Seq<Binding>, name: Seq<char>) -> int
    decreases s.len(),
{
    if s.len() == 0 {
        -1
    } else if s[0].0 == name {
        0
    } else if find_at(s.skip(1), name) < 0 {
        -1
    } else {
        1 + find_at(s.skip(1), name)
    }
}

/// The bindings after writing `name`: the first binding of `name` is
/// overwritten, or a new binding is appended.
pub open spec fn assoc_set(s: Seq<Binding>, name: Seq<char>, v: ValueRepr) -> Seq<Binding> {
    if find_at(s, name) < 0 {
        s.push((name, v))
    } else {
        s.update(find_at(s, name), (name, v))
    }
}

proof fn lemma_find_at_bounds(s: Seq<Binding>, name: Seq<char>)
    ensures
        find_at(s, name) >= 0 ==> find_at(s, name) < s.len() && s[find_at(s, name)].0 == name,
        (find_at(s, name) >= 0) <==> (assoc(s, name) is Some),
        find_at(s, name) >= 0 ==> assoc(s, name) == Some(s[find_at(s, name)].1),
    decreases s.len(),
{
    if s.len() > 0 && s[0].0 != name {
        lemma_find_at_bounds(s.skip(1), name);
    }
}

proof fn lemma_assoc_set(s: Seq<Binding>, name: Seq<char>, v: ValueRepr, other: Seq<char>)
    ensures
        assoc(assoc_set(s, name, v), name) == Some(v),
        other != name ==> assoc(assoc_set(s, name, v), other) == assoc(s, other),
    decreases s.len(),
{
    lemma_find_at_bounds(s, name);
    if s.len() == 0 {
        assert(assoc_set(s, name, v) =~= seq![(name, v)]);
        assert(assoc(seq![(name, v)], name) == Some(v));
        assert(assoc(seq![(name, v)].skip(1), other) == assoc(s, other)) by {
            assert(seq![(name, v)].skip(1) =~= s);
        }
    } else if s[0].0 == name {
        assert(assoc_set(s, name, v) =~= s.update(0, (name, v)));
        assert(assoc_set(s, name, v).skip(1) =~= s.skip(1));
    } else {
        lemma_assoc_set(s.skip(1), name, v, other);
        if find_at(s, name) < 0 {
            assert(assoc_set(s, name, v) =~= seq![s[0]] + assoc_set(s.skip(1), name, v));
            assert((seq![s[0]] + assoc_set(s.skip(1), name, v)).skip(1) =~= assoc_set(
                s.skip(1),
                name,
                v,
            ));
        } else {
            assert(assoc_set(s, name, v) =~= seq![s[0]] + assoc_set(s.skip(1), name, v));
            assert((seq![s[0]] + assoc_set(s.skip(1), name, v)).skip(1) =~= assoc_set(
                s.skip(1),
                name,
                v,
            ));
        }
    }
}

/// The chained lexical environment, owned by one compilation.
pub struct Scope {
    frames: Vec<Frame>,
}

impl Scope {
    pub closed spec fn num_frames(self) -> int {
        self.frames@.len() as int
    }

    pub closed spec fn frame_bindings(self, h: int) -> Seq<Binding> {
        self.frames@[h].bindings()
    }

    pub closed spec fn parent_of(self, h: int) -> Option<int> {
        match self.frames@[h].parent {
            Some(p) => Some(p as int),
            None => Option::<int>::None,
        }
    }

    /// Every chain of parent handles strictly descends and ends at the
    /// outermost scope, handle 0.
    pub closed spec fn wf(self) -> bool {
        &&& self.frames@.len() >= 1
        &&& self.frames@[0].parent is None
        &&& forall|j: int|
            1 <= j < self.frames@.len() ==> ((#[trigger] self.frames@[j].parent) matches Some(p)
                && p < j)
        &&& forall|j: int| 0 <= j < self.frames@.len() ==> (#[trigger] self.frames@[j]).vals_wf()
    }

    /// Read `name` at handle `h`: the nearest binding walking outward.
    pub open spec fn lookup(self, h: int, name: Seq<char>) -> Option<ValueRepr>
        recommends
            self.wf(),
            0 <= h < self.num_frames(),
        decreases h,
    {
        match assoc(self.frame_bindings(h), name) {
            Some(v) => Some(v),
            None => match self.parent_of(h) {
                Some(p) => if 0 <= p < h {
                    self.lookup(p, name)
                } else {
                    Option::<ValueRepr>::None
                },
                None => Option::<ValueRepr>::None,
            },
        }
    }

    /// A fresh chain holding one empty outermost scope.
    pub fn new() -> (r: Scope)
        ensures
            r.wf(),
            r.num_frames() == 1,
            r.frame_bindings(0) == Seq::<Binding>::empty(),
            forall|name: Seq<char>| #[trigger] r.lookup(0, name) is None,
    {
        let mut frames: Vec<Frame> = Vec::new();
        frames.push(Frame { vars: Vec::new(), parent: None });
        let r = Scope { frames };
        proof {
            assert(r.frame_bindings(0) =~= Seq::<Binding>::empty());
        }
        r
    }

    /// Open a nested scope whose parent is `parent`; its handle is the
    /// value returned.
    pub fn push_scope(&mut self, parent: usize) -> (h: usize)
        requires
            old(self).wf(),
            parent < old(self).num_frames(),
        ensures
            final(self).wf(),
            h as int == old(self).num_frames(),
            final(self).num_frames() == old(self).num_frames() + 1,
            forall|j: int|
                0 <= j < old(self).num_frames() ==> #[trigger] final(self).frame_bindings(j)
                    == old(self).frame_bindings(j) && final(self).parent_of(j) == old(self).parent_of(j),
            final(self).frame_bindings(h as int) == Seq::<Binding>::empty(),
            final(self).parent_of(h as int) == Some(parent as int),
            forall|j: int, name: Seq<char>|
                0 <= j < old(self).num_frames() ==> #[trigger] final(self).lookup(j, name) == old(self).lookup(j, name),
    {
        let h = self.frames.len();
        self.frames.push(Frame { vars: Vec::new(), parent: Some(parent) });
        proof {
            assert(self.frame_bindings(h as int) =~= Seq::<Binding>::empty());
            assert forall|j: int, name: Seq<char>|
                0 <= j < old(self).num_frames() implies #[trigger] self.lookup(j, name) == old(self).lookup(j, name) by {
                old(self).lemma_lookup_same(*self, j, name);
            }
        }
        h
    }

    /// Dispose the most recently opened scope.
    pub fn pop_scope(&mut self)
        requires
            old(self).wf(),
            old(self).num_frames() > 1,
        ensures
            final(self).wf(),
            final(self).num_frames() == old(self).num_frames() - 1,
            forall|j: int|
                0 <= j < final(self).num_frames() ==> #[trigger] final(self).frame_bindings(j)
                    == old(self).frame_bindings(j) && final(self).parent_of(j) == old(self).parent_of(j),
            forall|j: int, name: Seq<char>|
                0 <= j < final(self).num_frames() ==> #[trigger] final(self).lookup(j, name) == old(self).lookup(j, name),
    {
        let n = self.frames.len();
        self.frames.remove(n - 1);
        proof {
            assert forall|j: int, name: Seq<char>|
                0 <= j < self.num_frames() implies #[trigger] self.lookup(j, name) == old(self).lookup(j, name) by {
                old(self).lemma_lookup_same(*self, j, name);
            }
        }
    }

    /// Two chains that agree on frames `0..=h` look up identically at `h`.
    proof fn lemma_lookup_same(self, other: Scope, h: int, name: Seq<char>)
        requires
            self.wf(),
            other.wf(),
            0 <= h < self.num_frames(),
            h < other.num_frames(),
            forall|j: int|
                0 <= j <= h ==> #[trigger] self.frame_bindings(j) == other.frame_bindings(j)
                    && self.parent_of(j) == other.parent_of(j),
        ensures
            self.lookup(h, name) == other.lookup(h, name),
        decreases h,
    {
        if assoc(self.frame_bindings(h), name) is None {
            match self.parent_of(h) {
                Some(p) => {
                    if 0 <= p < h {
                        self.lemma_lookup_same(other, p, name);
                    }
                }
                None => {}
            }
        }
    }

    fn find_in_frame(vars: &Vec<(String, Value)>, name: &String) -> (r: Option<usize>)
        ensures
            match r {
                Some(i) => {
                    &&& i < vars@.len()
                    &&& find_at(frame_view(vars@), name@) == i as int
                },
                None => find_at(frame_view(vars@), name@) == -1,
            },
    {
        let mut i: usize = 0;
        while i < vars.len()
            invariant
                i <= vars@.len(),
                forall|j: int| 0 <= j < i ==> (#[trigger] frame_view(vars@)[j]).0 != name@,
            decreases vars@.len() - i,
        {
            if vars[i].0 == *name {
                proof {
                    lemma_find_at_prefix(frame_view(vars@), name@, i as int);
                }
                return Some(i);
            }
            i = i + 1;
        }
        proof {
            lemma_find_at_prefix(frame_view(vars@), name@, vars@.len() as int);
        }
        None
    }

    /// Read `name` at handle `h`, walking the chain outward.
    pub fn get_var_at(&self, h: usize, name: &String) -> (r: Option<Value>)
        requires
            self.wf(),
            h < self.num_frames(),
        ensures
            match r {
                Some(v) => self.lookup(h as int, name@) == Some(v@) && v.wf(),
                None => self.lookup(h as int, name@) is None,
            },
        decreases h,
    {
        let frame = &self.frames[h];
        match Self::find_in_frame(&frame.vars, name) {
            Some(i) => {
                proof {
                    lemma_find_at_bounds(frame.bindings(), name@);
                }
                Some(frame.vars[i].1.clone())
            }
            None => {
                proof {
                    lemma_find_at_bounds(frame.bindings(), name@);
                }
                match frame.parent {
                    Some(p) => self.get_var_at(p, name),
                    None => None,
                }
            }
        }
    }

    /// Read `name` in the innermost scope, the last one opened.
    pub fn get_var(&self, name: &String) -> (r: Option<Value>)
        requires
            self.wf(),
        ensures
            match r {
                Some(v) => self.lookup(self.num_frames() - 1, name@) == Some(v@) && v.wf(),
                None => self.lookup(self.num_frames() - 1, name@) is None,
            },
    {
        self.get_var_at(self.frames.len() - 1, name)
    }

    /// Write `name` in the frame `h` itself: overwrite a binding already
    /// there, otherwise create one there. No parent scope is touched.
    pub fn insert_var_at(&mut self, h: usize, name: String, value: Value)
        requires
            old(self).wf(),
            h < old(self).num_frames(),
            value.wf(),
        ensures
            final(self).wf(),
            final(self).num_frames() == old(self).num_frames(),
            final(self).frame_bindings(h as int) == assoc_set(
                old(self).frame_bindings(h as int),
                name@,
                value@,
            ),
            forall|j: int|
                0 <= j < old(self).num_frames() && j != h ==> #[trigger] final(self).frame_bindings(j) == old(self).frame_bindings(j),
            forall|j: int|
                0 <= j < old(self).num_frames() ==> #[trigger] final(self).parent_of(j) == old(self).parent_of(j),
    {
        let mut frame = self.frames.remove(h);
        let ghost pre = frame.bindings();
        match Self::find_in_frame(&frame.vars, &name) {
            Some(i) => {
                frame.vars.remove(i);
                frame.vars.insert(i, (name, value));
                proof {
                    lemma_find_at_bounds(pre, name@);
                    assert(frame.bindings() =~= assoc_set(pre, name@, value@));
                }
            }
            None => {
                frame.vars.push((name, value));
                proof {
                    assert(frame.bindings() =~= assoc_set(pre, name@, value@));
                }
            }
        }
        self.frames.insert(h, frame);
        proof {
            assert(self.frames@ =~= old(self).frames@.update(h as int, frame));
            assert(frame.vals_wf());
        }
    }

    /// A plain write: bind `name` in the innermost scope.
    pub fn insert_var(&mut self, name: String, value: Value)
        requires
            old(self).wf(),
            value.wf(),
        ensures
            final(self).wf(),
            final(self).num_frames() == old(self).num_frames(),
            final(self).frame_bindings(old(self).num_frames() - 1) == assoc_set(
                old(self).frame_bindings(old(self).num_frames() - 1),
                name@,
                value@,
            ),
            forall|j: int|
                0 <= j < old(self).num_frames() - 1 ==> #[trigger] final(self).frame_bindings(j)
                    == old(self).frame_bindings(j),
            forall|j: int|
                0 <= j < old(self).num_frames() ==> #[trigger] final(self).parent_of(j) == old(self).parent_of(j),
    {
        let h = self.frames.len() - 1;
        self.insert_var_at(h, name, value);
    }

    /// A global write: bind `name` in the outermost scope, whatever the
    /// current nesting depth.
    pub fn insert_global(&mut self, name: String, value: Value)
        requires
            old(self).wf(),
            value.wf(),
        ensures
            final(self).wf(),
            final(self).num_frames() == old(self).num_frames(),
            final(self).frame_bindings(0) == assoc_set(
                old(self).frame_bindings(0),
                name@,
                value@,
            ),
            assoc(final(self).frame_bindings(0), name@) == Some(value@),
            forall|j: int|
                1 <= j < old(self).num_frames() ==> #[trigger] final(self).frame_bindings(j)
                    == old(self).frame_bindings(j),
            forall|j: int|
                0 <= j < old(self).num_frames() ==> #[trigger] final(self).parent_of(j) == old(self).parent_of(j),
    {
        self.insert_var_at(0, name, value);
        proof {
            lemma_assoc_set(old(self).frame_bindings(0), name@, value@, name@);
        }
    }

    /// Whether `h` lies on the chain of parents of itself, i.e. `j` is
    /// reached walking outward from `h`.
    pub open spec fn in_chain(self, h: int, j: int) -> bool
        recommends
            self.wf(),
        decreases h,
    {
        h == j || (0 <= h < self.num_frames() && match self.parent_of(h) {
            Some(p) => 0 <= p < h && self.in_chain(p, j),
            None => false,
        })
    }

    /// Global write visibility: a binding of `name` in the outermost
    /// scope is observed by a read at any handle whose chain does not
    /// shadow `name` nearer in.
    pub proof fn lemma_global_visible(self, h: int, name: Seq<char>)
        requires
            self.wf(),
            0 <= h < self.num_frames(),
            forall|j: int|
                #[trigger] self.in_chain(h, j) && j != 0 ==> assoc(self.frame_bindings(j), name)
                    is None,
        ensures
            self.lookup(h, name) == assoc(self.frame_bindings(0), name),
        decreases h,
    {
        if h == 0 {
            if assoc(self.frame_bindings(0), name) is Some {
            }
        } else {
            assert(self.in_chain(h, h));
            let p = self.parent_of(h)->0;
            assert(self.in_chain(h, p)) by {
                assert(self.in_chain(p, p));
            }
            assert forall|j: int|
                #[trigger] self.in_chain(p, j) && j != 0 implies assoc(
                self.frame_bindings(j),
                name,
            ) is None by {
                assert(self.in_chain(h, j));
            }
            self.lemma_global_visible(p, name);
        }
    }

    /// Plain write isolation: a write into frame `c` changes no read at a
    /// handle whose chain avoids `c`.
    pub proof fn lemma_write_isolated(self, post: Scope, c: int, h: int, name: Seq<char>)
        requires
            self.wf(),
            post.wf(),
            post.num_frames() == self.num_frames(),
            0 <= h < self.num_frames(),
            0 <= c < self.num_frames(),
            forall|j: int|
                0 <= j < self.num_frames() && j != c ==> #[trigger] post.frame_bindings(j)
                    == self.frame_bindings(j),
            forall|j: int|
                0 <= j < self.num_frames() ==> #[trigger] post.parent_of(j) == self.parent_of(j),
            !self.in_chain(h, c),
        ensures
            post.lookup(h, name) == self.lookup(h, name),
        decreases h,
    {
        assert(h != c) by {
            assert(self.in_chain(h, h));
        }
        if assoc(self.frame_bindings(h), name) is None {
            match self.parent_of(h) {
                Some(p) => {
                    if 0 <= p < h {
                        assert(!self.in_chain(p, c)) by {
                            if self.in_chain(p, c) {
                                assert(self.in_chain(h, c));
                            }
                        }
                        self.lemma_write_isolated(post, c, p, name);
                    }
                }
                None => {}
            }
        }
    }

    /// A well-formed chain always holds its outermost scope.
    pub proof fn lemma_wf_has_root(self)
        requires
            self.wf(),
        ensures
            self.num_frames() >= 1,
            self.parent_of(0) is None,
    {
    }

    /// A scope that does not bind `name` itself reads it from its parent.
    pub proof fn lemma_read_through(self, h: int, name: Seq<char>)
        requires
            self.wf(),
            1 <= h < self.num_frames(),
            assoc(self.frame_bindings(h), name) is None,
        ensures
            self.lookup(h, name) == self.lookup(self.parent_of(h)->0, name),
    {
    }
}

/// The ghost view of one frame's binding list.
pub open spec fn frame_view(vars: Seq<(String, Value)>) -> Seq<Binding> {
    vars.map(|_i: int, p: (String, Value)| (p.0@, p.1@))
}


/// When no binding among the first `i` matches, the first match overall
/// is the first match at or past `i`.
proof fn lemma_find_at_prefix(s: Seq<Binding>, name: Seq<char>, i: int)
    requires
        0 <= i <= s.len(),
        forall|j: int| 0 <= j < i ==> s[j].0 != name,
    ensures
        i < s.len() && s[i].0 == name ==> find_at(s, name) == i,
        i == s.len() ==> find_at(s, name) == -1,
    decreases i,
{
    if i > 0 {
        lemma_find_at_prefix(s.skip(1), name, i - 1);
        assert(s.skip(1).len() == s.len() - 1);
        assert(forall|j: int| 0 <= j < i - 1 ==> s.skip(1)[j].0 != name);
        assert(i - 1 < s.skip(1).len() ==> s.skip(1)[i - 1] == s[i]);
    }
}

} // verus!
