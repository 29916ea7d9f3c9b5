//! The finite lattice of data types: scalars and small vectors of `bool`,
//! `i32` and `u32`, and sets of them (`TypeConstraints`) encoded as a bitmask
//! over a fixed canonical enumeration of the twelve type variants.

use vstd::prelude::*;

verus! {

/// A scalar type of the target language.
#[derive(Clone, Copy, Debug, PartialEq, Eq, Structural)]
pub enum ScalarType {
    Bool,
    I32,
    U32,
}

/// A concrete data type: a scalar, or a vector of 2 to 4 scalars.
#[derive(Clone, Copy, Debug, PartialEq, Eq, Structural)]
pub enum DataType {
    Scalar(ScalarType),
    Vector(u32, ScalarType),
}

/// A `DataType` is well formed when a vector arity is 2, 3 or 4.
pub open spec fn wf_data_type(t: DataType) -> bool {
    match t {
        DataType::Scalar(_) => true,
        DataType::Vector(n, _) => 2 <= n <= 4,
    }
}

/// The scalar element type: the type itself for scalars, the element type
/// for vectors.
pub open spec fn scalar_of(t: DataType) -> ScalarType {
    match t {
        DataType::Scalar(s) => s,
        DataType::Vector(_, s) => s,
    }
}

/// Canonical position of a scalar type in the enumeration.
pub open spec fn scalar_idx(s: ScalarType) -> int {
    match s {
        ScalarType::Bool => 0,
        ScalarType::I32 => 1,
        ScalarType::U32 => 2,
    }
}

/// Canonical position of a data type in the enumeration: the three scalars
/// first, then the vectors by arity.
pub open spec fn idx_of(t: DataType) -> int {
    match t {
        DataType::Scalar(s) => scalar_idx(s),
        DataType::Vector(n, s) => 3 * (n - 1) + scalar_idx(s),
    }
}

/// The data type at a canonical position; inverse of `idx_of` on well-formed
/// types.
pub open spec fn type_of_idx(i: int) -> DataType {
    if i == 0 {
        DataType::Scalar(ScalarType::Bool)
    } else if i == 1 {
        DataType::Scalar(ScalarType::I32)
    } else if i == 2 {
        DataType::Scalar(ScalarType::U32)
    } else if i == 3 {
        DataType::Vector(2, ScalarType::Bool)
    } else if i == 4 {
        DataType::Vector(2, ScalarType::I32)
    } else if i == 5 {
        DataType::Vector(2, ScalarType::U32)
    } else if i == 6 {
        DataType::Vector(3, ScalarType::Bool)
    } else if i == 7 {
        DataType::Vector(3, ScalarType::I32)
    } else if i == 8 {
        DataType::Vector(3, ScalarType::U32)
    } else if i == 9 {
        DataType::Vector(4, ScalarType::Bool)
    } else if i == 10 {
        DataType::Vector(4, ScalarType::I32)
    } else {
        DataType::Vector(4, ScalarType::U32)
    }
}

/// The one-hot bitmask of a data type.
pub open spec fn mask_of(t: DataType) -> u32 {
    1u32 << (idx_of(t) as u32)
}

pub proof fn lemma_idx_roundtrip(t: DataType)
    requires
        wf_data_type(t),
    ensures
        0 <= idx_of(t) < 12,
        type_of_idx(idx_of(t)) == t,
{
}

/// A set of data types, as a bitmask over the canonical enumeration.
#[derive(Clone, Copy, Debug, PartialEq, Eq, Structural)]
pub struct TypeConstraints(pub u32);

impl TypeConstraints {
    /// Only canonical bits are set.
    pub open spec fn wf(self) -> bool {
        self.0 & 0xFFFu32 == self.0
    }

    /// Membership of a data type in the set.
    pub open spec fn contains(self, t: DataType) -> bool {
        self.0 & mask_of(t) != 0
    }

    /// The set admits no type at all.
    pub open spec fn is_empty(self) -> bool {
        self.0 == 0
    }
}

pub proof fn lemma_mask_one_hot(a: DataType, b: DataType)
    requires
        wf_data_type(a),
        wf_data_type(b),
    ensures
        (mask_of(a) & mask_of(b) != 0) <==> a == b,
{
    lemma_idx_roundtrip(a);
    lemma_idx_roundtrip(b);
    let i = idx_of(a) as u32;
    let j = idx_of(b) as u32;
    assert(((1u32 << i) & (1u32 << j) != 0) == (i == j)) by (bit_vector)
        requires
            i < 12 && j < 12,
    ;
}

/// Union distributes over membership.
pub proof fn lemma_union_contains(a: TypeConstraints, b: TypeConstraints, t: DataType)
    requires
        wf_data_type(t),
    ensures
        TypeConstraints(a.0 | b.0).contains(t) <==> (a.contains(t) || b.contains(t)),
{
    lemma_idx_roundtrip(t);
    let i = idx_of(t) as u32;
    let x = a.0;
    let y = b.0;
    assert(((x | y) & (1u32 << i) != 0) == ((x & (1u32 << i) != 0) || (y & (1u32 << i) != 0)))
        by (bit_vector);
}

/// Intersection distributes over membership.
pub proof fn lemma_inter_contains(a: TypeConstraints, b: TypeConstraints, t: DataType)
    requires
        wf_data_type(t),
    ensures
        TypeConstraints(a.0 & b.0).contains(t) <==> (a.contains(t) && b.contains(t)),
{
    lemma_idx_roundtrip(t);
    let i = idx_of(t) as u32;
    let x = a.0;
    let y = b.0;
    assert(((x & y) & (1u32 << i) != 0) == ((x & (1u32 << i) != 0) && (y & (1u32 << i) != 0)))
        by (bit_vector);
}

/// A non-empty well-formed mask admits at least one type of the enumeration.
pub proof fn lemma_nonempty_has_member(c: TypeConstraints) -> (t: DataType)
    requires
        c.wf(),
        !c.is_empty(),
    ensures
        wf_data_type(t),
        c.contains(t),
{
    let x = c.0;
    assert((x & 0xFFFu32 == x && x != 0) ==> ((x & (1u32 << 0u32) != 0) || (x & (1u32 << 1u32)
        != 0) || (x & (1u32 << 2u32) != 0) || (x & (1u32 << 3u32) != 0) || (x & (1u32 << 4u32)
        != 0) || (x & (1u32 << 5u32) != 0) || (x & (1u32 << 6u32) != 0) || (x & (1u32 << 7u32)
        != 0) || (x & (1u32 << 8u32) != 0) || (x & (1u32 << 9u32) != 0) || (x & (1u32 << 10u32)
        != 0) || (x & (1u32 << 11u32) != 0))) by (bit_vector);
    let i = choose|i: int| 0 <= i < 12 && #[trigger] (x & (1u32 << (i as u32))) != 0;
    assert(exists|i: int| 0 <= i < 12 && #[trigger] (x & (1u32 << (i as u32))) != 0) by {
        if x & (1u32 << 0u32) != 0 {
            assert(x & (1u32 << (0int as u32)) != 0);
        } else if x & (1u32 << 1u32) != 0 {
            assert(x & (1u32 << (1int as u32)) != 0);
        } else if x & (1u32 << 2u32) != 0 {
            assert(x & (1u32 << (2int as u32)) != 0);
        } else if x & (1u32 << 3u32) != 0 {
            assert(x & (1u32 << (3int as u32)) != 0);
        } else if x & (1u32 << 4u32) != 0 {
            assert(x & (1u32 << (4int as u32)) != 0);
        } else if x & (1u32 << 5u32) != 0 {
            assert(x & (1u32 << (5int as u32)) != 0);
        } else if x & (1u32 << 6u32) != 0 {
            assert(x & (1u32 << (6int as u32)) != 0);
        } else if x & (1u32 << 7u32) != 0 {
            assert(x & (1u32 << (7int as u32)) != 0);
        } else if x & (1u32 << 8u32) != 0 {
            assert(x & (1u32 << (8int as u32)) != 0);
        } else if x & (1u32 << 9u32) != 0 {
            assert(x & (1u32 << (9int as u32)) != 0);
        } else if x & (1u32 << 10u32) != 0 {
            assert(x & (1u32 << (10int as u32)) != 0);
        } else {
            assert(x & (1u32 << (11int as u32)) != 0);
        }
    }
    let t0 = type_of_idx(i);
    assert(wf_data_type(t0) && idx_of(t0) == i);
    assert(c.contains(t0));
    t0
}

impl TypeConstraints {
    /// The set holding exactly the given types.
    pub fn any_of(types: &[DataType]) -> (r: TypeConstraints)
        requires
            forall|i: int| 0 <= i < types@.len() ==> wf_data_type(#[trigger] types@[i]),
        ensures
            r.wf(),
            forall|t: DataType|
                wf_data_type(t) ==> (#[trigger] r.contains(t) <==> exists|i: int|
                    0 <= i < types@.len() && types@[i] == t),
    {
        let mut v: u32 = 0;
        let ghost acc = TypeConstraints(0u32);
        assert(forall|t: DataType| wf_data_type(t) ==> !TypeConstraints(0u32).contains(t)) by {
            assert(forall|m: u32| 0u32 & m == 0) by (bit_vector);
        }
        assert(0u32 & 0xFFFu32 == 0u32) by (bit_vector);
        let mut k: usize = 0;
        while k < types.len()
            invariant
                0 <= k <= types@.len(),
                forall|i: int| 0 <= i < types@.len() ==> wf_data_type(#[trigger] types@[i]),
                TypeConstraints(v).wf(),
                forall|t: DataType|
                    wf_data_type(t) ==> (#[trigger] TypeConstraints(v).contains(t) <==> exists|
                        i: int,
                    | 0 <= i < k && types@[i] == t),
            decreases types@.len() - k,
        {
            let t = types[k];
            let m = type_mask(t);
            let ghost oldv = v;
            v = v | m;
            proof {
                lemma_idx_roundtrip(t);
                let i = idx_of(t) as u32;
                assert((oldv & 0xFFFu32 == oldv && i < 12) ==> ((oldv | (1u32 << i)) & 0xFFFu32
                    == (oldv | (1u32 << i)))) by (bit_vector);
                assert forall|u: DataType| wf_data_type(u) implies (
                #[trigger] TypeConstraints(v).contains(u) <==> exists|j: int|
                    0 <= j < k + 1 && types@[j] == u) by {
                    lemma_union_contains(TypeConstraints(oldv), TypeConstraints(m), u);
                    lemma_mask_one_hot(t, u);
                    if TypeConstraints(v).contains(u) {
                        if TypeConstraints(oldv).contains(u) {
                            let j = choose|j: int| 0 <= j < k && types@[j] == u;
                            assert(types@[j] == u);
                        } else {
                            assert(types@[k as int] == u);
                        }
                    }
                    if exists|j: int| 0 <= j < k + 1 && types@[j] == u {
                        let j = choose|j: int| 0 <= j < k + 1 && types@[j] == u;
                        if j < k {
                            assert(TypeConstraints(oldv).contains(u));
                        } else {
                            assert(TypeConstraints(m).contains(u));
                        }
                    }
                }
            }
            k = k + 1;
        }
        TypeConstraints(v)
    }

    /// The set holding exactly one type.
    pub fn only(t: DataType) -> (r: TypeConstraints)
        requires
            wf_data_type(t),
        ensures
            r.0 == mask_of(t),
            r.wf(),
            !r.is_empty(),
            forall|u: DataType| wf_data_type(u) ==> (#[trigger] r.contains(u) <==> u == t),
    {
        let m = type_mask(t);
        proof {
            lemma_idx_roundtrip(t);
            let i = idx_of(t) as u32;
            assert(i < 12 ==> ((1u32 << i) & 0xFFFu32 == (1u32 << i)) && (1u32 << i) != 0)
                by (bit_vector);
            assert forall|u: DataType| wf_data_type(u) implies (
            #[trigger] TypeConstraints(m).contains(u) <==> u == t) by {
                lemma_mask_one_hot(t, u);
            }
        }
        TypeConstraints(m)
    }

    /// Set union.
    pub fn union(self, other: TypeConstraints) -> (r: TypeConstraints)
        ensures
            r.0 == self.0 | other.0,
            self.wf() && other.wf() ==> r.wf(),
            forall|t: DataType|
                wf_data_type(t) ==> (#[trigger] r.contains(t) <==> (self.contains(t)
                    || other.contains(t))),
    {
        proof {
            let x = self.0;
            let y = other.0;
            assert((x & 0xFFFu32 == x && y & 0xFFFu32 == y) ==> ((x | y) & 0xFFFu32 == (x | y)))
                by (bit_vector);
            assert forall|t: DataType| wf_data_type(t) implies (#[trigger] TypeConstraints(
                x | y,
            ).contains(t) <==> (self.contains(t) || other.contains(t))) by {
                lemma_union_contains(self, other, t);
            }
        }
        TypeConstraints(self.0 | other.0)
    }

    /// Set intersection. `None` signals the empty set: no type is legal under
    /// both operands, and the caller must fall back to another production.
    pub fn intersection(self, other: TypeConstraints) -> (r: Option<TypeConstraints>)
        ensures
            match r {
                Some(c) => {
                    &&& c.0 == self.0 & other.0
                    &&& !c.is_empty()
                    &&& self.wf() ==> c.wf()
                    &&& forall|t: DataType|
                        wf_data_type(t) ==> (#[trigger] c.contains(t) <==> (self.contains(t)
                            && other.contains(t)))
                },
                None => forall|t: DataType|
                    wf_data_type(t) ==> !(self.contains(t) && #[trigger] other.contains(t)),
            },
            (r is Some) == (self.0 & other.0 != 0),
    {
        let inter = self.0 & other.0;
        proof {
            let x = self.0;
            let y = other.0;
            assert((x & 0xFFFu32 == x) ==> ((x & y) & 0xFFFu32 == (x & y))) by (bit_vector);
            assert forall|t: DataType| wf_data_type(t) implies (#[trigger] TypeConstraints(
                inter,
            ).contains(t) <==> (self.contains(t) && other.contains(t))) by {
                lemma_inter_contains(self, other, t);
            }
            if inter == 0 {
                assert forall|t: DataType|
                    wf_data_type(t) implies !(self.contains(t) && #[trigger] other.contains(
                    t,
                )) by {
                    lemma_inter_contains(self, other, t);
                    let m = mask_of(t);
                    assert(0u32 & m == 0) by (bit_vector);
                }
            }
        }
        if inter == 0 {
            None
        } else {
            Some(TypeConstraints(inter))
        }
    }

    /// True iff the intersection with `other` is non-empty.
    pub fn intersects(&self, other: TypeConstraints) -> (r: bool)
        ensures
            r == (self.0 & other.0 != 0),
    {
        self.0 & other.0 != 0
    }

    /// The members of the set, materialized in canonical order. This is the
    /// stable candidate list that uniform sampling draws from.
    pub fn members(&self) -> (v: Vec<DataType>)
        requires
            self.wf(),
        ensures
            v@.len() <= 12,
            forall|i: int| 0 <= i < v@.len() ==> wf_data_type(#[trigger] v@[i]),
            forall|i: int| 0 <= i < v@.len() ==> self.contains(#[trigger] v@[i]),
            forall|t: DataType| wf_data_type(t) && self.contains(t) ==> v@.contains(t),
            forall|i: int, j: int| 0 <= i < j < v@.len() ==> v@[i] != v@[j],
            forall|i: int, j: int|
                0 <= i < j < v@.len() ==> idx_of(#[trigger] v@[i]) < idx_of(#[trigger] v@[j]),
    {
        let mut v: Vec<DataType> = Vec::new();
        let mut k: u32 = 0;
        while k < 12
            invariant
                0 <= k <= 12,
                v@.len() <= k,
                self.wf(),
                forall|i: int| 0 <= i < v@.len() ==> wf_data_type(#[trigger] v@[i]),
                forall|i: int| 0 <= i < v@.len() ==> self.contains(#[trigger] v@[i]),
                forall|i: int| 0 <= i < v@.len() ==> 0 <= idx_of(#[trigger] v@[i]) < k,
                forall|t: DataType|
                    wf_data_type(t) && idx_of(t) < k && self.contains(t) ==> v@.contains(t),
                forall|i: int, j: int|
                    0 <= i < j < v@.len() ==> idx_of(#[trigger] v@[i]) < idx_of(#[trigger] v@[j]),
            decreases 12 - k,
        {
            let t = type_at_idx(k);
            proof {
                lemma_idx_roundtrip(t);
            }
            if self.contains_type(t) {
                let ghost pre = v@;
                v.push(t);
                assert forall|u: DataType|
                    wf_data_type(u) && idx_of(u) < k + 1 && self.contains(u) implies v@.contains(
                    u,
                ) by {
                    if idx_of(u) < k {
                        assert(pre.contains(u));
                        let i = choose|i: int| 0 <= i < pre.len() && pre[i] == u;
                        assert(v@[i] == u);
                    } else {
                        lemma_idx_roundtrip(u);
                        assert(u == t);
                        assert(v@.last() == u);
                    }
                }
            } else {
                assert forall|u: DataType|
                    wf_data_type(u) && idx_of(u) < k + 1 && self.contains(u) implies v@.contains(
                    u,
                ) by {
                    if idx_of(u) == k {
                        lemma_idx_roundtrip(u);
                        assert(u == t);
                        assert(!self.contains(u));
                    }
                }
            }
            k = k + 1;
        }
        proof {
            assert forall|i: int, j: int| 0 <= i < j < v@.len() implies v@[i] != v@[j] by {
                assert(idx_of(v@[i]) < idx_of(v@[j]));
            }
        }
        v
    }

    /// Uniform random selection of one member of the set: each admitted type
    /// comes back with equal probability, by drawing a uniform index into the
    /// canonically ordered, duplicate-free member list.
    pub fn select(self, rng: &mut rand::rngs::StdRng) -> (t: DataType)
        requires
            self.wf(),
            !self.is_empty(),
        ensures
            wf_data_type(t),
            self.contains(t),
    {
        let cands = self.members();
        proof {
            let w = lemma_nonempty_has_member(self);
            assert(cands@.contains(w));
        }
        let k = crate::rng::rng_below(rng, cands.len());
        cands[k]
    }

    /// Exact membership test.
    pub fn contains_type(&self, t: DataType) -> (r: bool)
        requires
            wf_data_type(t),
        ensures
            r == self.contains(t),
    {
        self.0 & type_mask(t) != 0
    }
}

impl TypeConstraints {
    /// The scalar `bool` type alone.
    pub fn bools() -> (r: TypeConstraints)
        ensures
            r.0 == 0x001u32,
    {
        TypeConstraints(0x001)
    }

    /// The scalar `i32` type alone.
    pub fn i32s() -> (r: TypeConstraints)
        ensures
            r.0 == 0x002u32,
    {
        TypeConstraints(0x002)
    }

    /// The scalar `u32` type alone.
    pub fn u32s() -> (r: TypeConstraints)
        ensures
            r.0 == 0x004u32,
    {
        TypeConstraints(0x004)
    }

    /// The two scalar integer types.
    pub fn ints() -> (r: TypeConstraints)
        ensures
            r.0 == 0x006u32,
    {
        TypeConstraints(0x006)
    }

    /// All scalar types.
    pub fn scalars() -> (r: TypeConstraints)
        ensures
            r.0 == 0x007u32,
    {
        TypeConstraints(0x007)
    }

    /// All vector types.
    pub fn vectors() -> (r: TypeConstraints)
        ensures
            r.0 == 0xFF8u32,
    {
        TypeConstraints(0xFF8)
    }

    /// All boolean vector types.
    pub fn vec_bools() -> (r: TypeConstraints)
        ensures
            r.0 == 0x248u32,
    {
        TypeConstraints(0x248)
    }

    /// All `i32` vector types.
    pub fn vec_i32s() -> (r: TypeConstraints)
        ensures
            r.0 == 0x490u32,
    {
        TypeConstraints(0x490)
    }

    /// All `u32` vector types.
    pub fn vec_u32s() -> (r: TypeConstraints)
        ensures
            r.0 == 0x920u32,
    {
        TypeConstraints(0x920)
    }

    /// All integer vector types.
    pub fn vec_ints() -> (r: TypeConstraints)
        ensures
            r.0 == 0xDB0u32,
    {
        TypeConstraints(0xDB0)
    }

    /// Every type of the lattice.
    pub fn unconstrained() -> (r: TypeConstraints)
        ensures
            r.0 == 0xFFFu32,
    {
        TypeConstraints(0xFFF)
    }
}

/// What membership in each named constraint family means for a well-formed
/// type, and that each family mask is well formed.
pub proof fn lemma_mask_families(t: DataType)
    requires
        wf_data_type(t),
    ensures
        TypeConstraints(0x001u32).contains(t) <==> t == DataType::Scalar(ScalarType::Bool),
        TypeConstraints(0x002u32).contains(t) <==> t == DataType::Scalar(ScalarType::I32),
        TypeConstraints(0x004u32).contains(t) <==> t == DataType::Scalar(ScalarType::U32),
        TypeConstraints(0x006u32).contains(t) <==> (t is Scalar && scalar_of(t) != ScalarType::Bool),
        TypeConstraints(0x007u32).contains(t) <==> t is Scalar,
        TypeConstraints(0xFF8u32).contains(t) <==> t is Vector,
        TypeConstraints(0x248u32).contains(t) <==> (t is Vector && scalar_of(t) == ScalarType::Bool),
        TypeConstraints(0x490u32).contains(t) <==> (t is Vector && scalar_of(t) == ScalarType::I32),
        TypeConstraints(0x920u32).contains(t) <==> (t is Vector && scalar_of(t) == ScalarType::U32),
        TypeConstraints(0xDB0u32).contains(t) <==> (t is Vector && scalar_of(t) != ScalarType::Bool),
        TypeConstraints(0x249u32).contains(t) <==> scalar_of(t) == ScalarType::Bool,
        TypeConstraints(0x492u32).contains(t) <==> scalar_of(t) == ScalarType::I32,
        TypeConstraints(0x924u32).contains(t) <==> scalar_of(t) == ScalarType::U32,
        TypeConstraints(0xDB6u32).contains(t) <==> scalar_of(t) != ScalarType::Bool,
        TypeConstraints(0xDB7u32).contains(t) <==> (t is Scalar || scalar_of(t)
            != ScalarType::Bool),
        TypeConstraints(0xFFFu32).contains(t),
        TypeConstraints(0x001u32).wf() && TypeConstraints(0x002u32).wf() && TypeConstraints(
            0x004u32,
        ).wf() && TypeConstraints(0x006u32).wf() && TypeConstraints(0x007u32).wf()
            && TypeConstraints(0xFF8u32).wf() && TypeConstraints(0x248u32).wf() && TypeConstraints(
            0x490u32,
        ).wf() && TypeConstraints(0x920u32).wf() && TypeConstraints(0xDB0u32).wf()
            && TypeConstraints(0x249u32).wf() && TypeConstraints(0x492u32).wf() && TypeConstraints(
            0x924u32,
        ).wf() && TypeConstraints(0xDB6u32).wf() && TypeConstraints(0xFFFu32).wf(),
{
    lemma_idx_roundtrip(t);
    let i = idx_of(t) as u32;
    assert((0x001u32 & (1u32 << i) != 0) == (i == 0) && (0x002u32 & (1u32 << i) != 0) == (i == 1)
        && (0x004u32 & (1u32 << i) != 0) == (i == 2) && (0x006u32 & (1u32 << i) != 0) == (i == 1
        || i == 2) && (0x007u32 & (1u32 << i) != 0) == (i <= 2) && (0xFF8u32 & (1u32 << i) != 0)
        == (3 <= i < 12) && (0x248u32 & (1u32 << i) != 0) == (i == 3 || i == 6 || i == 9) && (
    0x490u32 & (1u32 << i) != 0) == (i == 4 || i == 7 || i == 10) && (0x920u32 & (1u32 << i) != 0)
        == (i == 5 || i == 8 || i == 11) && (0xDB0u32 & (1u32 << i) != 0) == (i == 4 || i == 5
        || i == 7 || i == 8 || i == 10 || i == 11) && (0x249u32 & (1u32 << i) != 0) == (i == 0
        || i == 3 || i == 6 || i == 9) && (0x492u32 & (1u32 << i) != 0) == (i == 1 || i == 4
        || i == 7 || i == 10) && (0x924u32 & (1u32 << i) != 0) == (i == 2 || i == 5 || i == 8
        || i == 11) && (0xDB6u32 & (1u32 << i) != 0) == (i == 1 || i == 2 || i == 4 || i == 5
        || i == 7 || i == 8 || i == 10 || i == 11) && (0xDB7u32 & (1u32 << i) != 0) == (i < 3
        || i == 4 || i == 5 || i == 7 || i == 8 || i == 10 || i == 11) && (0xFFFu32 & (1u32 << i)
        != 0) == (i < 12)) by (bit_vector)
        requires
            i < 12,
    ;
    assert(0x001u32 & 0xFFFu32 == 0x001u32 && 0x002u32 & 0xFFFu32 == 0x002u32 && 0x004u32
        & 0xFFFu32 == 0x004u32 && 0x006u32 & 0xFFFu32 == 0x006u32 && 0x007u32 & 0xFFFu32
        == 0x007u32 && 0xFF8u32 & 0xFFFu32 == 0xFF8u32 && 0x248u32 & 0xFFFu32 == 0x248u32
        && 0x490u32 & 0xFFFu32 == 0x490u32 && 0x920u32 & 0xFFFu32 == 0x920u32 && 0xDB0u32
        & 0xFFFu32 == 0xDB0u32 && 0x249u32 & 0xFFFu32 == 0x249u32 && 0x492u32 & 0xFFFu32
        == 0x492u32 && 0x924u32 & 0xFFFu32 == 0x924u32 && 0xDB6u32 & 0xFFFu32 == 0xDB6u32
        && 0xFFFu32 & 0xFFFu32 == 0xFFFu32) by (bit_vector);
}

/// Constant identities among the family masks: the unions the generator
/// works with, folded to their canonical values.
pub proof fn lemma_family_unions()
    ensures
        0x002u32 | 0x490u32 == 0x492u32,
        0x001u32 | 0x248u32 == 0x249u32,
        0x006u32 | 0xDB0u32 == 0xDB6u32,
        0x007u32 | 0xDB0u32 == 0xDB7u32,
        0xDB7u32 & 0xFFFu32 == 0xDB7u32,
        0x492u32 & 0xFFFu32 == 0x492u32,
        0x249u32 & 0xFFFu32 == 0x249u32,
        0xDB6u32 & 0xFFFu32 == 0xDB6u32,
{
    assert((0x002u32 | 0x490u32) == 0x492u32 && (0x001u32 | 0x248u32) == 0x249u32 && (0x006u32
        | 0xDB0u32) == 0xDB6u32 && (0x007u32 | 0xDB0u32) == 0xDB7u32 && 0xDB7u32 & 0xFFFu32
        == 0xDB7u32 && 0x492u32 & 0xFFFu32 == 0x492u32 && 0x249u32 & 0xFFFu32 == 0x249u32
        && 0xDB6u32 & 0xFFFu32 == 0xDB6u32) by (bit_vector);
}

/// The empty set admits no type.
pub proof fn lemma_empty_contains(t: DataType)
    ensures
        !TypeConstraints(0u32).contains(t),
{
    let m = mask_of(t);
    assert(0u32 & m == 0) by (bit_vector);
}

/// Whether the set admits any vector type; the secondary termination measure
/// of the expression generator.
pub open spec fn vec_part(c: TypeConstraints) -> int {
    if c.0 & 0xFF8u32 != 0 {
        1
    } else {
        0
    }
}

/// Canonical position of a data type, executable form.
pub fn type_idx(t: DataType) -> (i: u32)
    requires
        wf_data_type(t),
    ensures
        i as int == idx_of(t),
        i < 12,
{
    match t {
        DataType::Scalar(ScalarType::Bool) => 0,
        DataType::Scalar(ScalarType::I32) => 1,
        DataType::Scalar(ScalarType::U32) => 2,
        DataType::Vector(n, ScalarType::Bool) => 3 * (n - 1),
        DataType::Vector(n, ScalarType::I32) => 3 * (n - 1) + 1,
        DataType::Vector(n, ScalarType::U32) => 3 * (n - 1) + 2,
    }
}

/// The data type at a canonical position, executable form.
pub fn type_at_idx(i: u32) -> (t: DataType)
    requires
        i < 12,
    ensures
        t == type_of_idx(i as int),
        wf_data_type(t),
{
    if i == 0 {
        DataType::Scalar(ScalarType::Bool)
    } else if i == 1 {
        DataType::Scalar(ScalarType::I32)
    } else if i == 2 {
        DataType::Scalar(ScalarType::U32)
    } else if i == 3 {
        DataType::Vector(2, ScalarType::Bool)
    } else if i == 4 {
        DataType::Vector(2, ScalarType::I32)
    } else if i == 5 {
        DataType::Vector(2, ScalarType::U32)
    } else if i == 6 {
        DataType::Vector(3, ScalarType::Bool)
    } else if i == 7 {
        DataType::Vector(3, ScalarType::I32)
    } else if i == 8 {
        DataType::Vector(3, ScalarType::U32)
    } else if i == 9 {
        DataType::Vector(4, ScalarType::Bool)
    } else if i == 10 {
        DataType::Vector(4, ScalarType::I32)
    } else {
        DataType::Vector(4, ScalarType::U32)
    }
}

/// The one-hot bitmask of a data type, executable form.
pub fn type_mask(t: DataType) -> (m: u32)
    requires
        wf_data_type(t),
    ensures
        m == mask_of(t),
{
    let i = type_idx(t);
    1u32 << i
}

} // verus!
