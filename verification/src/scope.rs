//! The lexical scope: an ordered stack of frames mapping identifiers to data
//! types. Lookup searches the innermost frame first; candidate lists for
//! random choice are materialized in a stable order so that nothing but the
//! random stream influences the generator's output.

use vstd::prelude::*;

use crate::types::{DataType, ScalarType, TypeConstraints, wf_data_type};

verus! {

/// One visible binding: a name, its declared type, and whether it was
/// declared assignable (`var` rather than `let`).
#[derive(Debug)]
pub struct Binding {
    pub name: String,
    pub data_type: DataType,
    pub mutable: bool,
}

/// A name-to-type environment as a stack of frames.
#[derive(Debug)]
pub struct Scope {
    pub frames: Vec<Vec<Binding>>,
}

/// Innermost-first lookup within one frame: the latest binding of a name
/// wins.
pub open spec fn frame_lookup(f: Seq<Binding>, name: Seq<char>) -> Option<Binding>
    decreases f.len(),
{
    if f.len() == 0 {
        Option::None
    } else if f.last().name@ == name {
        Option::Some(f.last())
    } else {
        frame_lookup(f.drop_last(), name)
    }
}

/// Innermost-first lookup across the frame stack.
pub open spec fn frames_lookup(fs: Seq<Vec<Binding>>, name: Seq<char>) -> Option<Binding>
    decreases fs.len(),
{
    if fs.len() == 0 {
        Option::None
    } else {
        match frame_lookup(fs.last()@, name) {
            Option::Some(b) => Option::Some(b),
            Option::None => frames_lookup(fs.drop_last(), name),
        }
    }
}

impl Scope {
    /// The scope always holds at least one frame.
    pub open spec fn inv(self) -> bool {
        self.frames@.len() >= 1
    }

    /// The visible binding of a name, if any.
    pub open spec fn lookup_spec(self, name: Seq<char>) -> Option<Binding> {
        frames_lookup(self.frames@, name)
    }

    /// The scope as a name-to-type environment; the map the generated code is
    /// closed under.
    pub open spec fn as_map(self) -> Map<Seq<char>, DataType> {
        Map::new(
            |n: Seq<char>| frames_lookup(self.frames@, n) is Some,
            |n: Seq<char>| frames_lookup(self.frames@, n)->Some_0.data_type,
        )
    }

    /// Every binding in every frame has a well-formed type.
    pub open spec fn types_wf(self) -> bool {
        forall|i: int, j: int|
            0 <= i < self.frames@.len() && 0 <= j < (#[trigger] self.frames@[i])@.len()
                ==> wf_data_type(#[trigger] self.frames@[i]@[j].data_type)
    }

    /// An empty scope of one frame.
    pub fn new() -> (s: Scope)
        ensures
            s.inv(),
            s.frames@.len() == 1,
            s.frames@[0]@ == Seq::<Binding>::empty(),
            s.as_map() == Map::<Seq<char>, DataType>::empty(),
            s.types_wf(),
    {
        let mut frames: Vec<Vec<Binding>> = Vec::new();
        frames.push(Vec::new());
        let s = Scope { frames };
        proof {
            assert forall|n: Seq<char>| !((#[trigger] frames_lookup(s.frames@, n)) is Some) by {
                reveal_with_fuel(frames_lookup, 2);
                assert(s.frames@.last()@ =~= Seq::<Binding>::empty());
                assert(s.frames@.drop_last() =~= Seq::<Vec<Binding>>::empty());
            }
            assert(s.as_map() =~= Map::<Seq<char>, DataType>::empty());
        }
        s
    }

    /// Enter a nested block: push an empty frame. The environment is
    /// unchanged.
    pub fn push(&mut self)
        requires
            old(self).inv(),
        ensures
            final(self).inv(),
            final(self).frames@.len() == old(self).frames@.len() + 1,
            final(self).frames@.drop_last() == old(self).frames@,
            final(self).frames@.last()@ == Seq::<Binding>::empty(),
            final(self).as_map() == old(self).as_map(),
            forall|n: Seq<char>|
                #[trigger] final(self).lookup_spec(n) == old(self).lookup_spec(n),
            old(self).types_wf() ==> final(self).types_wf(),
    {
        let ghost oldframes = self.frames@;
        self.frames.push(Vec::new());
        proof {
            assert(self.frames@.drop_last() =~= oldframes);
            assert forall|n: Seq<char>| #[trigger] frames_lookup(self.frames@, n)
                == frames_lookup(oldframes, n) by {
                assert(frame_lookup(self.frames@.last()@, n) is None);
            }
            assert(self.as_map() =~= old(self).as_map());
            if old(self).types_wf() {
                assert forall|i: int, j: int|
                    0 <= i < self.frames@.len() && 0 <= j < (
                    #[trigger] self.frames@[i])@.len() implies wf_data_type(
                    #[trigger] self.frames@[i]@[j].data_type,
                ) by {
                    if i < oldframes.len() {
                        assert(self.frames@[i] == oldframes[i]);
                    } else {
                        assert(self.frames@[i]@.len() == 0);
                    }
                }
            }
        }
    }

    /// Leave a nested block: drop the innermost frame, restoring the frames
    /// beneath it exactly.
    pub fn pop(&mut self)
        requires
            old(self).inv(),
            old(self).frames@.len() >= 2,
        ensures
            final(self).inv(),
            final(self).frames@ == old(self).frames@.drop_last(),
            old(self).types_wf() ==> final(self).types_wf(),
    {
        self.frames.pop();
        proof {
            assert(self.frames@ =~= old(self).frames@.drop_last());
            if old(self).types_wf() {
                assert forall|i: int, j: int|
                    0 <= i < self.frames@.len() && 0 <= j < (
                    #[trigger] self.frames@[i])@.len() implies wf_data_type(
                    #[trigger] self.frames@[i]@[j].data_type,
                ) by {
                    assert(self.frames@[i] == old(self).frames@[i]);
                }
            }
        }
    }

    /// Add a binding to the innermost frame. Redeclaring a name bound in the
    /// same frame is the caller's programming error and is excluded.
    pub fn insert(&mut self, name: String, data_type: DataType, mutable: bool)
        requires
            old(self).inv(),
            frame_lookup(old(self).frames@.last()@, name@) is None,
            wf_data_type(data_type),
        ensures
            final(self).inv(),
            final(self).frames@.len() == old(self).frames@.len(),
            final(self).frames@.drop_last() == old(self).frames@.drop_last(),
            final(self).frames@.last()@ == old(self).frames@.last()@.push(
                Binding { name: name, data_type: data_type, mutable: mutable },
            ),
            final(self).as_map() == old(self).as_map().insert(name@, data_type),
            forall|n: Seq<char>|
                n != name@ ==> #[trigger] final(self).lookup_spec(n) == old(self).lookup_spec(n),
            final(self).lookup_spec(name@) == Option::Some(
                Binding { name: name, data_type: data_type, mutable: mutable },
            ),
            old(self).types_wf() ==> final(self).types_wf(),
    {
        let ghost oldframes = self.frames@;
        let ghost b = Binding { name: name, data_type: data_type, mutable: mutable };
        let mut frame = match self.frames.pop() {
            Some(f) => f,
            None => unreached(),
        };
        frame.push(Binding { name, data_type, mutable });
        self.frames.push(frame);
        proof {
            assert(self.frames@.len() == oldframes.len());
            assert(self.frames@.drop_last() =~= oldframes.drop_last());
            assert(self.frames@.last()@ =~= oldframes.last()@.push(b));
            assert forall|n: Seq<char>| n != b.name@ implies #[trigger] frames_lookup(
                self.frames@,
                n,
            ) == frames_lookup(oldframes, n) by {
                let newtop = self.frames@.last()@;
                assert(newtop.drop_last() =~= oldframes.last()@);
                assert(frame_lookup(newtop, n) == frame_lookup(oldframes.last()@, n));
                assert(self.frames@.drop_last() =~= oldframes.drop_last());
            }
            assert(frame_lookup(self.frames@.last()@, b.name@) == Option::Some(b));
            assert(frames_lookup(self.frames@, b.name@) == Option::Some(b));
            assert(self.as_map() =~= old(self).as_map().insert(b.name@, b.data_type));
            if old(self).types_wf() {
                assert forall|i: int, j: int|
                    0 <= i < self.frames@.len() && 0 <= j < (
                    #[trigger] self.frames@[i])@.len() implies wf_data_type(
                    #[trigger] self.frames@[i]@[j].data_type,
                ) by {
                    let last = oldframes.len() - 1;
                    if i < last {
                        assert(self.frames@.drop_last()[i] == oldframes.drop_last()[i]);
                        assert(self.frames@[i] == oldframes[i]);
                    } else {
                        assert(self.frames@[i]@ == oldframes[last]@.push(b));
                        if j < oldframes[last]@.len() {
                            assert(self.frames@[i]@[j] == oldframes[last]@[j]);
                        } else {
                            assert(self.frames@[i]@[j] == b);
                        }
                    }
                }
            }
        }
    }

    /// Look a name up, innermost frame first.
    #[verifier::loop_isolation(false)]
    pub fn lookup(&self, name: &String) -> (r: Option<DataType>)
        ensures
            match r {
                Option::Some(t) => self.lookup_spec(name@) matches Option::Some(b) && b.data_type
                    == t,
                Option::None => self.lookup_spec(name@) is None,
            },
    {
        let ghost fs = self.frames@;
        let mut i = self.frames.len();
        proof {
            assert(fs.subrange(0, fs.len() as int) =~= fs);
        }
        while i > 0
            invariant
                i <= fs.len(),
                self.frames@ == fs,
                frames_lookup(fs, name@) == frames_lookup(fs.subrange(0, i as int), name@),
            decreases i,
        {
            i = i - 1;
            let frame = &self.frames[i];
            let ghost f = frame@;
            let mut j = frame.len();
            proof {
                assert(f.subrange(0, f.len() as int) =~= f);
            }
            while j > 0
                invariant
                    j <= f.len(),
                    frame@ == f,
                    frame_lookup(f, name@) == frame_lookup(f.subrange(0, j as int), name@),
                decreases j,
            {
                j = j - 1;
                if string_eq(&frame[j].name, name) {
                    proof {
                        assert(f.subrange(0, j + 1).last() == f[j as int]);
                        assert(frame_lookup(f.subrange(0, j + 1), name@) == Option::Some(
                            f[j as int],
                        ));
                        assert(frame_lookup(f, name@) == Option::Some(f[j as int]));
                        assert(fs.subrange(0, i + 1).last() == fs[i as int]);
                        assert(frames_lookup(fs.subrange(0, i + 1), name@) == Option::Some(
                            f[j as int],
                        ));
                    }
                    return Some(frame[j].data_type);
                }
                proof {
                    assert(f.subrange(0, j + 1).last() == f[j as int]);
                    assert(f.subrange(0, j + 1).drop_last() =~= f.subrange(0, j as int));
                }
            }
            proof {
                assert(f.subrange(0, 0) =~= Seq::<Binding>::empty());
                assert(frame_lookup(f, name@) is None);
                assert(fs.subrange(0, i + 1).last() == fs[i as int]);
                assert(fs.subrange(0, i + 1).drop_last() =~= fs.subrange(0, i as int));
            }
        }
        proof {
            assert(fs.subrange(0, 0) =~= Seq::<Vec<Binding>>::empty());
        }
        None
    }
}

/// A binding of this name is visible, its type is admitted by the
/// constraints, and, when `assignable` asks for it, the visible binding is
/// mutable.
pub open spec fn visible_matching(
    s: Scope,
    constraints: TypeConstraints,
    assignable: bool,
    n: Seq<char>,
) -> bool {
    &&& s.lookup_spec(n) is Some
    &&& constraints.contains(s.lookup_spec(n)->Some_0.data_type)
    &&& (assignable ==> s.lookup_spec(n)->Some_0.mutable)
}

/// The scanned binding `b` denotes a candidate: its type is admitted and the
/// visible binding of its name carries the same type (and mutability when
/// asked for).
spec fn cand_ok(s: Scope, constraints: TypeConstraints, assignable: bool, b: Binding) -> bool {
    &&& constraints.contains(b.data_type)
    &&& s.lookup_spec(b.name@) is Some
    &&& s.lookup_spec(b.name@)->Some_0.data_type == b.data_type
    &&& (assignable ==> s.lookup_spec(b.name@)->Some_0.mutable)
}

/// A successful frame lookup returns one of the frame's bindings, under the
/// looked-up name.
pub proof fn lemma_frame_lookup_mem(f: Seq<Binding>, n: Seq<char>)
    requires
        frame_lookup(f, n) is Some,
    ensures
        exists|j: int|
            0 <= j < f.len() && #[trigger] f[j] == frame_lookup(f, n)->Some_0 && f[j].name@ == n,
    decreases f.len(),
{
    if f.last().name@ == n {
        assert(f[f.len() - 1] == frame_lookup(f, n)->Some_0);
    } else {
        lemma_frame_lookup_mem(f.drop_last(), n);
        let j = choose|j: int|
            0 <= j < f.drop_last().len() && #[trigger] f.drop_last()[j] == frame_lookup(
                f.drop_last(),
                n,
            )->Some_0 && f.drop_last()[j].name@ == n;
        assert(f[j] == f.drop_last()[j]);
    }
}

/// A successful lookup returns one of the scope's bindings, under the
/// looked-up name.
pub proof fn lemma_frames_lookup_mem(fs: Seq<Vec<Binding>>, n: Seq<char>)
    requires
        frames_lookup(fs, n) is Some,
    ensures
        exists|i: int, j: int|
            0 <= i < fs.len() && 0 <= j < fs[i]@.len() && #[trigger] fs[i]@[j] == frames_lookup(
                fs,
                n,
            )->Some_0 && fs[i]@[j].name@ == n,
    decreases fs.len(),
{
    if frame_lookup(fs.last()@, n) is Some {
        lemma_frame_lookup_mem(fs.last()@, n);
        let j = choose|j: int|
            0 <= j < fs.last()@.len() && #[trigger] fs.last()@[j] == frame_lookup(
                fs.last()@,
                n,
            )->Some_0 && fs.last()@[j].name@ == n;
        assert(fs[fs.len() - 1]@[j] == frames_lookup(fs, n)->Some_0);
    } else {
        lemma_frames_lookup_mem(fs.drop_last(), n);
        let (i, j) = choose|i: int, j: int|
            0 <= i < fs.drop_last().len() && 0 <= j < fs.drop_last()[i]@.len()
                && #[trigger] fs.drop_last()[i]@[j] == frames_lookup(fs.drop_last(), n)->Some_0
                && fs.drop_last()[i]@[j].name@ == n;
        assert(fs[i] == fs.drop_last()[i]);
        assert(fs[i]@[j] == frames_lookup(fs, n)->Some_0);
    }
}

/// In a scope whose bindings all carry well-formed types, every visible type
/// is well formed.
pub proof fn lemma_lookup_wf(s: Scope, n: Seq<char>)
    requires
        s.types_wf(),
        s.lookup_spec(n) is Some,
    ensures
        wf_data_type(s.lookup_spec(n)->Some_0.data_type),
{
    lemma_frames_lookup_mem(s.frames@, n);
}

impl Scope {
    /// Look a name up, returning the visible type and mutability.
    #[verifier::loop_isolation(false)]
    pub fn lookup_full(&self, name: &String) -> (r: Option<(DataType, bool)>)
        ensures
            match r {
                Option::Some(p) => self.lookup_spec(name@) is Some && self.lookup_spec(
                    name@,
                )->Some_0.data_type == p.0 && self.lookup_spec(name@)->Some_0.mutable == p.1,
                Option::None => self.lookup_spec(name@) is None,
            },
    {
        let ghost fs = self.frames@;
        let mut i = self.frames.len();
        proof {
            assert(fs.subrange(0, fs.len() as int) =~= fs);
        }
        let mut res: Option<(DataType, bool)> = None;
        let mut done: bool = false;
        while i > 0 && !done
            invariant
                i <= fs.len(),
                self.frames@ == fs,
                !done ==> res is None && frames_lookup(fs, name@) == frames_lookup(
                    fs.subrange(0, i as int),
                    name@,
                ),
                done ==> match res {
                    Option::Some(p) => frames_lookup(fs, name@) is Some && frames_lookup(
                        fs,
                        name@,
                    )->Some_0.data_type == p.0 && frames_lookup(fs, name@)->Some_0.mutable == p.1,
                    Option::None => false,
                },
            decreases i,
        {
            i = i - 1;
            let frame = &self.frames[i];
            let ghost f = frame@;
            proof {
                assert(f.subrange(0, f.len() as int) =~= f);
            }
            let mut j = frame.len();
            while j > 0 && !done
                invariant
                    j <= f.len(),
                    !done ==> res is None && frame_lookup(f, name@) == frame_lookup(
                        f.subrange(0, j as int),
                        name@,
                    ),
                    done ==> match res {
                        Option::Some(p) => frame_lookup(f, name@) is Some && frame_lookup(
                            f,
                            name@,
                        )->Some_0.data_type == p.0 && frame_lookup(f, name@)->Some_0.mutable
                            == p.1,
                        Option::None => false,
                    },
                decreases j,
            {
                j = j - 1;
                if string_eq(&frame[j].name, name) {
                    proof {
                        assert(f.subrange(0, j + 1).last() == f[j as int]);
                        assert(frame_lookup(f.subrange(0, j + 1), name@) == Option::Some(
                            f[j as int],
                        ));
                    }
                    res = Some((frame[j].data_type, frame[j].mutable));
                    done = true;
                } else {
                    proof {
                        assert(f.subrange(0, j + 1).last() == f[j as int]);
                        assert(f.subrange(0, j + 1).drop_last() =~= f.subrange(0, j as int));
                    }
                }
            }
            proof {
                if !done {
                    assert(f.subrange(0, 0) =~= Seq::<Binding>::empty());
                    assert(frame_lookup(f, name@) is None);
                }
                assert(fs.subrange(0, i + 1).last() == fs[i as int]);
                assert(fs.subrange(0, i + 1).drop_last() =~= fs.subrange(0, i as int));
            }
        }
        proof {
            if !done {
                assert(fs.subrange(0, 0) =~= Seq::<Vec<Binding>>::empty());
            }
        }
        res
    }

    /// True iff some visible binding's type is admitted by the constraint
    /// set.
    pub fn intersects(&self, constraints: TypeConstraints) -> (r: bool)
        requires
            self.types_wf(),
        ensures
            r == exists|n: Seq<char>| visible_matching(*self, constraints, false, n),
    {
        let cands = self.candidates(constraints, false);
        if cands.len() > 0 {
            proof {
                let n = cands@[0].0@;
                assert(visible_matching(*self, constraints, false, n));
            }
            true
        } else {
            false
        }
    }

    /// The visible candidates for a uniform choice: every binding whose name
    /// resolves to its own type, with the type admitted by the constraints,
    /// in stable declaration order. When `assignable` is set, only names
    /// whose visible binding is mutable are candidates.
    #[verifier::loop_isolation(false)]
    pub fn candidates(&self, constraints: TypeConstraints, assignable: bool) -> (v: Vec<
        (String, DataType),
    >)
        requires
            self.types_wf(),
        ensures
            forall|k: int|
                0 <= k < v@.len() ==> visible_matching(
                    *self,
                    constraints,
                    assignable,
                    (#[trigger] v@[k]).0@,
                ) && self.lookup_spec(v@[k].0@)->Some_0.data_type == v@[k].1,
            (exists|n: Seq<char>| visible_matching(*self, constraints, assignable, n))
                ==> v@.len() > 0,
    {
        let ghost fs = self.frames@;
        let mut v: Vec<(String, DataType)> = Vec::new();
        let mut i: usize = 0;
        while i < self.frames.len()
            invariant
                0 <= i <= fs.len(),
                forall|k: int|
                    0 <= k < v@.len() ==> visible_matching(
                        *self,
                        constraints,
                        assignable,
                        (#[trigger] v@[k]).0@,
                    ) && self.lookup_spec(v@[k].0@)->Some_0.data_type == v@[k].1,
                v@.len() > 0 || forall|a: int, b: int|
                    0 <= a < i && 0 <= b < fs[a]@.len() ==> !(#[trigger] cand_ok(
                        *self,
                        constraints,
                        assignable,
                        fs[a]@[b],
                    )),
            decreases fs.len() - i,
        {
            let frame = &self.frames[i];
            let mut j: usize = 0;
            while j < frame.len()
                invariant
                    0 <= j <= frame@.len(),
                    forall|k: int|
                        0 <= k < v@.len() ==> visible_matching(
                            *self,
                            constraints,
                            assignable,
                            (#[trigger] v@[k]).0@,
                        ) && self.lookup_spec(v@[k].0@)->Some_0.data_type == v@[k].1,
                    v@.len() > 0 || ((forall|a: int, b: int|
                        0 <= a < i && 0 <= b < fs[a]@.len() ==> !(#[trigger] cand_ok(
                            *self,
                            constraints,
                            assignable,
                            fs[a]@[b],
                        ))) && (forall|b: int|
                        0 <= b < j ==> !(#[trigger] cand_ok(
                            *self,
                            constraints,
                            assignable,
                            fs[i as int]@[b],
                        )))),
                decreases frame@.len() - j,
            {
                let b = &frame[j];
                let mut ok: bool = constraints.contains_type(b.data_type);
                if ok {
                    ok = match self.lookup_full(&b.name) {
                        Some((t, m)) => data_type_eq(t, b.data_type) && (!assignable || m),
                        None => false,
                    };
                }
                if ok {
                    v.push((clone_string(&b.name), b.data_type));
                }
                proof {
                    assert(fs[i as int]@[j as int] == frame@[j as int]);
                    if !ok {
                        assert(!cand_ok(*self, constraints, assignable, fs[i as int]@[j as int]));
                    }
                }
                j = j + 1;
            }
            i = i + 1;
        }
        proof {
            if exists|n: Seq<char>| visible_matching(*self, constraints, assignable, n) {
                let n = choose|n: Seq<char>| visible_matching(*self, constraints, assignable, n);
                lemma_frames_lookup_mem(fs, n);
                let (a, b) = choose|a: int, b: int|
                    0 <= a < fs.len() && 0 <= b < fs[a]@.len() && #[trigger] fs[a]@[b]
                        == frames_lookup(fs, n)->Some_0 && fs[a]@[b].name@ == n;
                assert(cand_ok(*self, constraints, assignable, fs[a]@[b]));
                assert(v@.len() > 0);
            }
        }
        v
    }

    /// Uniform random choice among the visible bindings whose type the
    /// constraint set admits: materialize the candidates in stable order and
    /// draw one index uniformly.
    pub fn choose_matching(&self, rng: &mut rand::rngs::StdRng, constraints: TypeConstraints) -> (r:
        (String, DataType))
        requires
            self.types_wf(),
            exists|n: Seq<char>| visible_matching(*self, constraints, false, n),
        ensures
            visible_matching(*self, constraints, false, r.0@),
            self.lookup_spec(r.0@)->Some_0.data_type == r.1,
            constraints.contains(r.1),
    {
        let cands = self.candidates(constraints, false);
        let k = crate::rng::rng_below(rng, cands.len());
        let (name, t) = &cands[k];
        (clone_string(name), *t)
    }

    /// Uniform random choice among the visible mutable bindings whose type
    /// the constraint set admits.
    pub fn choose_assignable(
        &self,
        rng: &mut rand::rngs::StdRng,
        constraints: TypeConstraints,
    ) -> (r: (String, DataType))
        requires
            self.types_wf(),
            exists|n: Seq<char>| visible_matching(*self, constraints, true, n),
        ensures
            visible_matching(*self, constraints, true, r.0@),
            self.lookup_spec(r.0@)->Some_0.data_type == r.1,
            constraints.contains(r.1),
    {
        let cands = self.candidates(constraints, true);
        let k = crate::rng::rng_below(rng, cands.len());
        let (name, t) = &cands[k];
        (clone_string(name), *t)
    }

    /// All visible (name, type) pairs, outermost first: every name that
    /// resolves, with its visible type.
    pub fn visible_pairs(&self) -> (v: Vec<(String, DataType)>)
        requires
            self.types_wf(),
        ensures
            forall|k: int|
                0 <= k < v@.len() ==> self.lookup_spec((#[trigger] v@[k]).0@) is Some
                    && self.lookup_spec(v@[k].0@)->Some_0.data_type == v@[k].1,
            (exists|n: Seq<char>| (#[trigger] self.lookup_spec(n)) is Some) ==> v@.len() > 0,
    {
        let all = TypeConstraints(0xFFF);
        proof {
            if exists|n: Seq<char>| (#[trigger] self.lookup_spec(n)) is Some {
                let n = choose|n: Seq<char>| (#[trigger] self.lookup_spec(n)) is Some;
                lemma_lookup_wf(*self, n);
                crate::types::lemma_mask_families(self.lookup_spec(n)->Some_0.data_type);
                assert(visible_matching(*self, all, false, n));
            }
        }
        self.candidates(all, false)
    }

    /// True iff some visible mutable binding's type is admitted by the
    /// constraint set.
    pub fn intersects_assignable(&self, constraints: TypeConstraints) -> (r: bool)
        requires
            self.types_wf(),
        ensures
            r == exists|n: Seq<char>| visible_matching(*self, constraints, true, n),
    {
        let cands = self.candidates(constraints, true);
        if cands.len() > 0 {
            proof {
                let n = cands@[0].0@;
                assert(visible_matching(*self, constraints, true, n));
            }
            true
        } else {
            false
        }
    }
}

/// Structural equality of two data types.
pub fn data_type_eq(a: DataType, b: DataType) -> (r: bool)
    ensures
        r == (a == b),
{
    match (a, b) {
        (DataType::Scalar(x), DataType::Scalar(y)) => scalar_type_eq(x, y),
        (DataType::Vector(n, x), DataType::Vector(m, y)) => n == m && scalar_type_eq(x, y),
        _ => false,
    }
}

/// Structural equality of two scalar types.
pub fn scalar_type_eq(a: ScalarType, b: ScalarType) -> (r: bool)
    ensures
        r == (a == b),
{
    match (a, b) {
        (ScalarType::Bool, ScalarType::Bool) => true,
        (ScalarType::I32, ScalarType::I32) => true,
        (ScalarType::U32, ScalarType::U32) => true,
        _ => false,
    }
}

/// A copy of a string, equal to it.
pub fn clone_string(s: &String) -> (r: String)
    ensures
        r@ == s@,
{
    s.clone()
}

/// Equality of two strings, by their character sequences.
pub fn string_eq(a: &String, b: &String) -> (r: bool)
    ensures
        r == (a@ == b@),
{
    <String as PartialEq>::eq(a, b)
}

} // verus!
