//! An in-memory reference store: loose references overlaid on a packed list.
//!
//! Iteration yields the references under `refs/` in byte order, with a loose
//! reference shadowing a packed one of the same name, as a file-based ref
//! database does when a `packed-refs` file is present.

use vstd::prelude::*;

use crate::bytes::{
    bytes_before, bytes_eq, bytes_lt, copy_bytes, is_prefix_of, lemma_bytes_lt_connex,
    lemma_bytes_lt_trans, starts_with,
};
use crate::error::Error;
use crate::hash::ObjectId;

verus! {

/// The bytes of the name space every regular reference lives under.
pub open spec fn refs_prefix() -> Seq<u8> {
    seq![114u8, 101u8, 102u8, 115u8, 47u8]
}

/// What a reference points at.
#[derive(Clone, Debug, PartialEq, Eq)]
pub enum Target {
    /// A direct reference to an object.
    Object(ObjectId),
    /// A symbolic reference to another reference, by full name.
    Symbolic(Vec<u8>),
}

/// A named reference.
#[derive(Clone, Debug, PartialEq, Eq)]
pub struct Reference {
    /// The full name, such as `refs/heads/main`.
    pub name: Vec<u8>,
    /// What the reference points at.
    pub target: Target,
}

/// One line of a packed reference list.
#[derive(Clone, Debug, PartialEq, Eq)]
pub struct PackedRef {
    /// The full name of the reference.
    pub name: Vec<u8>,
    /// The object it points at; packed references are always direct.
    pub id: ObjectId,
}

/// Whether two targets point at the same thing.
pub open spec fn target_matches(a: Target, b: Target) -> bool {
    match (a, b) {
        (Target::Object(x), Target::Object(y)) => x == y,
        (Target::Symbolic(x), Target::Symbolic(y)) => x@ == y@,
        _ => false,
    }
}

/// Whether two references agree in name and target.
pub open spec fn ref_matches(a: Reference, b: Reference) -> bool {
    a.name@ == b.name@ && target_matches(a.target, b.target)
}

/// Whether `x` agrees with one of the references of `rs`.
pub open spec fn from_loose(x: Reference, rs: Seq<Reference>) -> bool {
    exists|w: int| 0 <= w < rs.len() && ref_matches(x, #[trigger] rs[w])
}

/// Whether `x` agrees with one of the packed references of `rs`.
pub open spec fn from_packed(x: PackedRef, rs: Seq<PackedRef>) -> bool {
    exists|w: int|
        0 <= w < rs.len() && x.name@ == (#[trigger] rs[w]).name@ && x.id == rs[w].id
}

/// Whether `x` carries the name and object of one of the packed references
/// of `rs`.
pub open spec fn ref_from_packed(x: Reference, rs: Seq<PackedRef>) -> bool {
    exists|w: int|
        0 <= w < rs.len() && x.name@ == (#[trigger] rs[w]).name@ && x.target == Target::Object(
            rs[w].id,
        )
}

/// Whether some reference of `rs` carries the given name.
pub open spec fn has_name(rs: Seq<Reference>, name: Seq<u8>) -> bool {
    exists|k: int| 0 <= k < rs.len() && (#[trigger] rs[k]).name@ == name
}

/// A name stays present when more references are appended.
proof fn lemma_has_name_push(rs: Seq<Reference>, c: Reference, name: Seq<u8>)
    requires
        has_name(rs, name),
    ensures
        has_name(rs.push(c), name),
{
    let k = choose|k: int| 0 <= k < rs.len() && (#[trigger] rs[k]).name@ == name;
    assert(rs.push(c)[k].name@ == name);
}

/// Agreement between references carries over.
proof fn lemma_ref_matches_trans(a: Reference, b: Reference, c: Reference)
    requires
        ref_matches(a, b),
        ref_matches(b, c),
    ensures
        ref_matches(a, c),
{
}

/// Whether the names at the given indices are sorted strictly ascending.
pub open spec fn loose_sorted(rs: Seq<Reference>) -> bool {
    forall|i: int|
        0 <= i && i + 1 < rs.len() ==> bytes_lt((#[trigger] rs[i]).name@, rs[i + 1].name@)
}

/// Whether the packed names are sorted strictly ascending.
pub open spec fn packed_sorted(rs: Seq<PackedRef>) -> bool {
    forall|i: int|
        0 <= i && i + 1 < rs.len() ==> bytes_lt((#[trigger] rs[i]).name@, rs[i + 1].name@)
}

/// In a sorted list, any earlier name sorts before any later one.
proof fn lemma_loose_gap(rs: Seq<Reference>, i: int, j: int)
    requires
        loose_sorted(rs),
        0 <= i < j < rs.len(),
    ensures
        bytes_lt(rs[i].name@, rs[j].name@),
    decreases j - i,
{
    if i + 1 < j {
        lemma_loose_gap(rs, i, j - 1);
        lemma_bytes_lt_trans(rs[i].name@, rs[j - 1].name@, rs[j].name@);
    }
}

/// In a sorted packed list, any earlier name sorts before any later one.
proof fn lemma_packed_gap(rs: Seq<PackedRef>, i: int, j: int)
    requires
        packed_sorted(rs),
        0 <= i < j < rs.len(),
    ensures
        bytes_lt(rs[i].name@, rs[j].name@),
    decreases j - i,
{
    if i + 1 < j {
        lemma_packed_gap(rs, i, j - 1);
        lemma_bytes_lt_trans(rs[i].name@, rs[j - 1].name@, rs[j].name@);
    }
}

/// A packed reference list, as read from a `packed-refs` file.
#[derive(Clone, Debug, PartialEq, Eq)]
pub struct PackedBuffer {
    /// The packed references, sorted by name.
    pub refs: Vec<PackedRef>,
}

impl PackedBuffer {
    /// Whether the packed names are sorted strictly ascending.
    pub open spec fn wf(self) -> bool {
        packed_sorted(self.refs@)
    }

    /// Build a packed list; fails exactly when the names are not sorted
    /// strictly ascending.
    pub fn new(refs: Vec<PackedRef>) -> (r: Result<PackedBuffer, Error>)
        ensures
            r matches Ok(p) ==> p.wf() && p.refs == refs,
            r is Err <==> !packed_sorted(refs@),
            r matches Err(e) ==> e == Error::UnsortedReferences,
    {
        let n = refs.len();
        let mut i: usize = 1;
        while i < n
            invariant
                n == refs@.len(),
                1 <= i,
                forall|k: int|
                    0 <= k && k + 1 < i ==> bytes_lt(
                        (#[trigger] refs@[k]).name@,
                        refs@[k + 1].name@,
                    ),
            decreases n - i,
        {
            if !bytes_before(&refs[i - 1].name, &refs[i].name) {
                return Err(Error::UnsortedReferences);
            }
            i = i + 1;
        }
        Ok(PackedBuffer { refs })
    }

    /// All packed references, in order.
    pub fn iter(&self) -> (r: Vec<PackedRef>)
        ensures
            r@.len() == self.refs@.len(),
            forall|k: int|
                0 <= k < r@.len() ==> (#[trigger] r@[k]).name@ == self.refs@[k].name@
                    && r@[k].id == self.refs@[k].id,
    {
        let mut out: Vec<PackedRef> = Vec::new();
        let mut k: usize = 0;
        while k < self.refs.len()
            invariant
                0 <= k <= self.refs@.len(),
                out@.len() == k,
                forall|m: int|
                    0 <= m < k ==> (#[trigger] out@[m]).name@ == self.refs@[m].name@ && out@[m].id
                        == self.refs@[m].id,
            decreases self.refs@.len() - k,
        {
            out.push(PackedRef { name: copy_bytes(&self.refs[k].name), id: self.refs[k].id });
            k = k + 1;
        }
        out
    }

    /// The packed references whose names start with `prefix`, in order.
    pub fn iter_prefixed(&self, prefix: &Vec<u8>) -> (r: Vec<PackedRef>)
        requires
            self.wf(),
        ensures
            packed_sorted(r@),
            forall|k: int| 0 <= k < r@.len() ==> is_prefix_of(prefix@, (#[trigger] r@[k]).name@),
            forall|k: int| 0 <= k < r@.len() ==> from_packed(#[trigger] r@[k], self.refs@),
            forall|m: int|
                0 <= m < self.refs@.len() && is_prefix_of(
                    prefix@,
                    (#[trigger] self.refs@[m]).name@,
                ) ==> exists|k: int| 0 <= k < r@.len() && (#[trigger] r@[k]).name@
                    == self.refs@[m].name@,
    {
        let mut out: Vec<PackedRef> = Vec::new();
        let mut k: usize = 0;
        while k < self.refs.len()
            invariant
                self.wf(),
                0 <= k <= self.refs@.len(),
                packed_sorted(out@),
                out@.len() > 0 ==> exists|w: int|
                    0 <= w < k && (#[trigger] self.refs@[w]).name@ == out@[out@.len() - 1].name@,
                forall|m: int|
                    0 <= m < out@.len() ==> is_prefix_of(prefix@, (#[trigger] out@[m]).name@),
                forall|m: int| 0 <= m < out@.len() ==> from_packed(#[trigger] out@[m], self.refs@),
                forall|w: int|
                    0 <= w < k && is_prefix_of(prefix@, (#[trigger] self.refs@[w]).name@)
                        ==> exists|m: int|
                        0 <= m < out@.len() && (#[trigger] out@[m]).name@ == self.refs@[w].name@,
            decreases self.refs@.len() - k,
        {
            if starts_with(&self.refs[k].name, prefix) {
                let ghost pre = out@;
                out.push(PackedRef { name: copy_bytes(&self.refs[k].name), id: self.refs[k].id });
                proof {
                    assert(out@ == pre.push(out@[pre.len() as int]));
                    assert(out@[pre.len() as int].name@ == self.refs@[k as int].name@);
                    assert(out@[pre.len() as int].id == self.refs@[k as int].id);
                    assert forall|m: int| 0 <= m && m + 1 < out@.len() implies bytes_lt(
                        (#[trigger] out@[m]).name@,
                        out@[m + 1].name@,
                    ) by {
                        if m + 1 < pre.len() {
                            assert(out@[m] == pre[m] && out@[m + 1] == pre[m + 1]);
                        } else {
                            assert(out@[m] == pre[pre.len() - 1]);
                            let w = choose|w: int|
                                0 <= w < k && (#[trigger] self.refs@[w]).name@ == pre[pre.len()
                                    - 1].name@;
                            lemma_packed_gap(self.refs@, w, k as int);
                        }
                    }
                    assert((#[trigger] self.refs@[k as int]).name@ == out@[out@.len() - 1].name@);
                    assert forall|m: int| 0 <= m < out@.len() implies from_packed(
                        #[trigger] out@[m],
                        self.refs@,
                    ) by {
                        if m < pre.len() {
                            assert(out@[m] == pre[m]);
                            assert(from_packed(pre[m], self.refs@));
                        } else {
                            assert(out@[m].name@ == (#[trigger] self.refs@[k as int]).name@
                                && out@[m].id == self.refs@[k as int].id);
                        }
                    }
                    assert forall|w: int|
                        0 <= w < k + 1 && is_prefix_of(
                            prefix@,
                            (#[trigger] self.refs@[w]).name@,
                        ) implies exists|m: int|
                        0 <= m < out@.len() && (#[trigger] out@[m]).name@
                            == self.refs@[w].name@ by {
                        if w < k {
                            let m = choose|m: int|
                                0 <= m < pre.len() && (#[trigger] pre[m]).name@
                                    == self.refs@[w].name@;
                            assert(out@[m].name@ == self.refs@[w].name@);
                        } else {
                            assert(out@[pre.len() as int].name@ == self.refs@[w].name@);
                        }
                    }
                }
            }
            k = k + 1;
        }
        out
    }
}

/// An in-memory reference store: sorted loose references plus an optional
/// packed list.
#[derive(Clone, Debug, PartialEq, Eq)]
pub struct Store {
    /// The loose references — regular ones under `refs/` and root-level
    /// pseudo references such as `HEAD` — sorted by name.
    pub loose: Vec<Reference>,
    /// The packed references, when a packed list exists.
    pub packed: Option<PackedBuffer>,
}

impl Store {
    /// Whether the loose names are sorted strictly ascending and the packed
    /// list, when present, is sound.
    pub open spec fn wf(self) -> bool {
        &&& loose_sorted(self.loose@)
        &&& (self.packed matches Some(p) ==> p.wf())
    }

    /// Build a store; fails exactly when the loose names are not sorted
    /// strictly ascending.  Hand in the packed list through
    /// [`PackedBuffer::new`].
    pub fn new(loose: Vec<Reference>, packed: Option<PackedBuffer>) -> (r: Result<Store, Error>)
        requires
            packed matches Some(p) ==> p.wf(),
        ensures
            r matches Ok(s) ==> s.wf() && s.loose == loose && s.packed == packed,
            r is Err <==> !loose_sorted(loose@),
            r matches Err(e) ==> e == Error::UnsortedReferences,
    {
        let n = loose.len();
        let mut i: usize = 1;
        while i < n
            invariant
                n == loose@.len(),
                1 <= i,
                forall|k: int|
                    0 <= k && k + 1 < i ==> bytes_lt(
                        (#[trigger] loose@[k]).name@,
                        loose@[k + 1].name@,
                    ),
            decreases n - i,
        {
            if !bytes_before(&loose[i - 1].name, &loose[i].name) {
                return Err(Error::UnsortedReferences);
            }
            i = i + 1;
        }
        Ok(Store { loose, packed })
    }

    /// A store with no references at all.
    pub fn empty() -> (r: Store)
        ensures
            r.wf(),
            r.loose@.len() == 0,
            r.packed is None,
    {
        Store { loose: Vec::new(), packed: None }
    }

    /// The packed reference list, when one exists.
    pub fn open_packed_buffer(&self) -> (r: Option<&PackedBuffer>)
        ensures
            r is Some <==> self.packed is Some,
            r matches Some(p) ==> self.packed matches Some(q) && p == q,
    {
        match &self.packed {
            Some(p) => Some(p),
            None => None,
        }
    }

    /// Access to iteration over the store's references.
    pub fn iter(&self) -> (r: Platform<'_>)
        ensures
            r.store == self,
    {
        Platform { store: self }
    }

    /// The loose references under `refs/`, in name order.
    #[verifier::rlimit(100)]
    pub fn loose_iter(&self) -> (r: Vec<Reference>)
        requires
            self.wf(),
        ensures
            forall|k: int|
                0 <= k < r@.len() ==> is_prefix_of(refs_prefix(), (#[trigger] r@[k]).name@),
            forall|k: int| 0 <= k < r@.len() ==> from_loose(#[trigger] r@[k], self.loose@),
            forall|m: int|
                0 <= m < self.loose@.len() && is_prefix_of(
                    refs_prefix(),
                    (#[trigger] self.loose@[m]).name@,
                ) ==> exists|k: int| 0 <= k < r@.len() && (#[trigger] r@[k]).name@
                    == self.loose@[m].name@,
    {
        let prefix = refs_prefix_vec();
        self.loose_iter_prefixed(&prefix)
    }

    /// The loose references under `refs/` whose names start with `prefix`,
    /// in name order.
    pub fn loose_iter_prefixed(&self, prefix: &Vec<u8>) -> (r: Vec<Reference>)
        requires
            self.wf(),
        ensures
            loose_sorted(r@),
            forall|k: int| 0 <= k < r@.len() ==> is_prefix_of(prefix@, (#[trigger] r@[k]).name@),
            forall|k: int| 0 <= k < r@.len() ==> from_loose(#[trigger] r@[k], self.loose@),
            forall|m: int|
                0 <= m < self.loose@.len() && is_prefix_of(
                    prefix@,
                    (#[trigger] self.loose@[m]).name@,
                ) ==> exists|k: int| 0 <= k < r@.len() && (#[trigger] r@[k]).name@
                    == self.loose@[m].name@,
    {
        let mut out: Vec<Reference> = Vec::new();
        let mut k: usize = 0;
        while k < self.loose.len()
            invariant
                self.wf(),
                0 <= k <= self.loose@.len(),
                loose_sorted(out@),
                out@.len() > 0 ==> exists|w: int|
                    0 <= w < k && (#[trigger] self.loose@[w]).name@ == out@[out@.len() - 1].name@,
                forall|m: int|
                    0 <= m < out@.len() ==> is_prefix_of(prefix@, (#[trigger] out@[m]).name@),
                forall|m: int| 0 <= m < out@.len() ==> from_loose(#[trigger] out@[m], self.loose@),
                forall|w: int|
                    0 <= w < k && is_prefix_of(prefix@, (#[trigger] self.loose@[w]).name@)
                        ==> exists|m: int|
                        0 <= m < out@.len() && (#[trigger] out@[m]).name@ == self.loose@[w].name@,
            decreases self.loose@.len() - k,
        {
            if starts_with(&self.loose[k].name, prefix) {
                let ghost pre = out@;
                out.push(copy_reference(&self.loose[k]));
                proof {
                    assert(out@ == pre.push(out@[pre.len() as int]));
                    assert(ref_matches(out@[pre.len() as int], self.loose@[k as int]));
                    assert forall|m: int| 0 <= m && m + 1 < out@.len() implies bytes_lt(
                        (#[trigger] out@[m]).name@,
                        out@[m + 1].name@,
                    ) by {
                        if m + 1 < pre.len() {
                            assert(out@[m] == pre[m] && out@[m + 1] == pre[m + 1]);
                        } else {
                            assert(out@[m] == pre[pre.len() - 1]);
                            let w = choose|w: int|
                                0 <= w < k && (#[trigger] self.loose@[w]).name@ == pre[pre.len()
                                    - 1].name@;
                            lemma_loose_gap(self.loose@, w, k as int);
                        }
                    }
                    assert((#[trigger] self.loose@[k as int]).name@ == out@[out@.len() - 1].name@);
                    assert forall|m: int| 0 <= m < out@.len() implies from_loose(
                        #[trigger] out@[m],
                        self.loose@,
                    ) by {
                        if m < pre.len() {
                            assert(out@[m] == pre[m]);
                            assert(from_loose(pre[m], self.loose@));
                        } else {
                            assert(ref_matches(out@[m], (#[trigger] self.loose@[k as int])));
                        }
                    }
                    assert forall|w: int|
                        0 <= w < k + 1 && is_prefix_of(
                            prefix@,
                            (#[trigger] self.loose@[w]).name@,
                        ) implies exists|m: int|
                        0 <= m < out@.len() && (#[trigger] out@[m]).name@
                            == self.loose@[w].name@ by {
                        if w < k {
                            let m = choose|m: int|
                                0 <= m < pre.len() && (#[trigger] pre[m]).name@
                                    == self.loose@[w].name@;
                            assert(out@[m].name@ == self.loose@[w].name@);
                        } else {
                            assert(out@[pre.len() as int].name@ == self.loose@[w].name@);
                        }
                    }
                }
            }
            k = k + 1;
        }
        out
    }

    /// The pseudo references: loose references outside `refs/`, such as
    /// `HEAD`, in name order.
    #[verifier::rlimit(100)]
    pub fn iter_pseudo(&self) -> (r: Vec<Reference>)
        ensures
            forall|k: int|
                0 <= k < r@.len() ==> !is_prefix_of(refs_prefix(), (#[trigger] r@[k]).name@),
            forall|k: int| 0 <= k < r@.len() ==> from_loose(#[trigger] r@[k], self.loose@),
            forall|m: int|
                0 <= m < self.loose@.len() && !is_prefix_of(
                    refs_prefix(),
                    (#[trigger] self.loose@[m]).name@,
                ) ==> exists|k: int| 0 <= k < r@.len() && (#[trigger] r@[k]).name@
                    == self.loose@[m].name@,
    {
        let prefix = refs_prefix_vec();
        let mut out: Vec<Reference> = Vec::new();
        let mut k: usize = 0;
        while k < self.loose.len()
            invariant
                prefix@ == refs_prefix(),
                0 <= k <= self.loose@.len(),
                forall|m: int|
                    0 <= m < out@.len() ==> !is_prefix_of(refs_prefix(), (#[trigger] out@[m]).name@),
                forall|m: int| 0 <= m < out@.len() ==> from_loose(#[trigger] out@[m], self.loose@),
                forall|w: int|
                    0 <= w < k && !is_prefix_of(refs_prefix(), (#[trigger] self.loose@[w]).name@)
                        ==> exists|m: int|
                        0 <= m < out@.len() && (#[trigger] out@[m]).name@ == self.loose@[w].name@,
            decreases self.loose@.len() - k,
        {
            if !starts_with(&self.loose[k].name, &prefix) {
                let ghost pre = out@;
                out.push(copy_reference(&self.loose[k]));
                proof {
                    assert(out@ == pre.push(out@[pre.len() as int]));
                    assert(ref_matches(out@[pre.len() as int], self.loose@[k as int]));
                    assert forall|m: int| 0 <= m < out@.len() implies from_loose(
                        #[trigger] out@[m],
                        self.loose@,
                    ) by {
                        if m < pre.len() {
                            assert(out@[m] == pre[m]);
                            assert(from_loose(pre[m], self.loose@));
                        } else {
                            assert(ref_matches(out@[m], (#[trigger] self.loose@[k as int])));
                        }
                    }
                    assert forall|w: int|
                        0 <= w < k + 1 && !is_prefix_of(
                            refs_prefix(),
                            (#[trigger] self.loose@[w]).name@,
                        ) implies exists|m: int|
                        0 <= m < out@.len() && (#[trigger] out@[m]).name@
                            == self.loose@[w].name@ by {
                        if w < k {
                            let m = choose|m: int|
                                0 <= m < pre.len() && (#[trigger] pre[m]).name@
                                    == self.loose@[w].name@;
                            assert(out@[m].name@ == self.loose@[w].name@);
                        } else {
                            assert(out@[pre.len() as int].name@ == self.loose@[w].name@);
                        }
                    }
                }
            }
            k = k + 1;
        }
        out
    }

    /// Whether the store is pristine with respect to the given head name:
    /// it holds no reference at all, apart from a possible loose entry with
    /// exactly that name.
    pub fn is_pristine(&self, head_name: &Vec<u8>) -> (r: Option<bool>)
        ensures
            r matches Some(b) ==> b == (self.packed is None && forall|k: int|
                0 <= k < self.loose@.len() ==> (#[trigger] self.loose@[k]).name@ == head_name@),
    {
        if self.packed.is_some() {
            return Some(false);
        }
        let mut k: usize = 0;
        while k < self.loose.len()
            invariant
                0 <= k <= self.loose@.len(),
                forall|m: int| 0 <= m < k ==> (#[trigger] self.loose@[m]).name@ == head_name@,
            decreases self.loose@.len() - k,
        {
            if !bytes_eq(&self.loose[k].name, head_name) {
                return Some(false);
            }
            k = k + 1;
        }
        Some(true)
    }
}

/// The bytes of the `refs/` prefix, as a vector.
fn refs_prefix_vec() -> (r: Vec<u8>)
    ensures
        r@ == refs_prefix(),
{
    let mut v: Vec<u8> = Vec::new();
    v.push(114);
    v.push(101);
    v.push(102);
    v.push(115);
    v.push(47);
    proof {
        assert(v@ =~= refs_prefix());
    }
    v
}

/// A copy of the given reference.
fn copy_reference(r: &Reference) -> (c: Reference)
    ensures
        ref_matches(c, *r),
        c.name@ == r.name@,
{
    let target = match &r.target {
        Target::Object(id) => Target::Object(*id),
        Target::Symbolic(n) => Target::Symbolic(copy_bytes(n)),
    };
    Reference { name: copy_bytes(&r.name), target }
}

/// What iteration yields for a given prefix: every yielded reference carries
/// the prefix and stems from the store, every loose ref of the store with
/// the prefix is represented by name, and so is every packed ref.  Loose
/// references shadow packed ones of the same name.
pub open spec fn yields_for_prefix(r: Seq<Reference>, st: Store, prefix: Seq<u8>) -> bool {
    &&& forall|k: int| 0 <= k < r.len() ==> is_prefix_of(prefix, (#[trigger] r[k]).name@)
    &&& forall|k: int|
        0 <= k < r.len() ==> from_loose(#[trigger] r[k], st.loose@) || (st.packed matches Some(p)
            && ref_from_packed(r[k], p.refs@))
    &&& forall|m: int|
        0 <= m < st.loose@.len() && is_prefix_of(prefix, (#[trigger] st.loose@[m]).name@)
            ==> has_name(r, st.loose@[m].name@)
    &&& (st.packed matches Some(p) ==> forall|m: int|
        0 <= m < p.refs@.len() && is_prefix_of(prefix, (#[trigger] p.refs@[m]).name@) ==> has_name(
            r,
            p.refs@[m].name@,
        ))
}

/// Iteration over a store's references.
pub struct Platform<'a> {
    /// The store being iterated.
    pub store: &'a Store,
}

impl<'a> Platform<'a> {
    /// All references under `refs/`, in name order: the loose ones overlaid
    /// on the packed ones, a loose reference shadowing a packed one of the
    /// same name.
    pub fn all(&self) -> (r: Vec<Reference>)
        requires
            self.store.wf(),
        ensures
            loose_sorted(r@),
            yields_for_prefix(r@, *self.store, refs_prefix()),
    {
        let prefix = refs_prefix_vec();
        self.prefixed(&prefix)
    }

    /// The references under `refs/` whose names start with `prefix`, in name
    /// order, loose ones shadowing packed ones of the same name.
    pub fn prefixed(&self, prefix: &Vec<u8>) -> (r: Vec<Reference>)
        requires
            self.store.wf(),
        ensures
            loose_sorted(r@),
            yields_for_prefix(r@, *self.store, prefix@),
    {
        let loose = self.store.loose_iter_prefixed(prefix);
        let packed: Vec<PackedRef> = match self.store.open_packed_buffer() {
            Some(p) => p.iter_prefixed(prefix),
            None => Vec::new(),
        };
        overlay(&loose, &packed)
    }
}

/// Merge sorted loose and packed reference lists by name, loose entries
/// shadowing packed ones of the same name; the smaller name goes first, so
/// the result is sorted again.
fn overlay(loose: &Vec<Reference>, packed: &Vec<PackedRef>) -> (r: Vec<Reference>)
    requires
        loose_sorted(loose@),
        packed_sorted(packed@),
    ensures
        loose_sorted(r@),
        forall|k: int|
            0 <= k < r@.len() ==> from_loose(#[trigger] r@[k], loose@) || ref_from_packed(
                r@[k],
                packed@,
            ),
        forall|m: int| 0 <= m < loose@.len() ==> has_name(r@, (#[trigger] loose@[m]).name@),
        forall|m: int| 0 <= m < packed@.len() ==> has_name(r@, (#[trigger] packed@[m]).name@),
{
    let mut out: Vec<Reference> = Vec::new();
    let mut i: usize = 0;
    let mut j: usize = 0;
    while i < loose.len() || j < packed.len()
        invariant
            loose_sorted(loose@),
            packed_sorted(packed@),
            0 <= i <= loose@.len(),
            0 <= j <= packed@.len(),
            loose_sorted(out@),
            out@.len() > 0 && i < loose@.len() ==> bytes_lt(
                out@[out@.len() - 1].name@,
                loose@[i as int].name@,
            ),
            out@.len() > 0 && j < packed@.len() ==> bytes_lt(
                out@[out@.len() - 1].name@,
                packed@[j as int].name@,
            ),
            forall|k: int|
                0 <= k < out@.len() ==> from_loose(#[trigger] out@[k], loose@) || ref_from_packed(
                    out@[k],
                    packed@,
                ),
            forall|m: int| 0 <= m < i ==> has_name(out@, (#[trigger] loose@[m]).name@),
            forall|m: int| 0 <= m < j ==> has_name(out@, (#[trigger] packed@[m]).name@),
        decreases loose@.len() - i + packed@.len() - j,
    {
        let ghost pre = out@;
        let take_loose: bool = if i < loose.len() {
            if j < packed.len() {
                // loose wins ties, and the smaller name goes first
                !bytes_before(&packed[j].name, &loose[i].name)
            } else {
                true
            }
        } else {
            false
        };
        if take_loose {
            let shadowed: bool = if j < packed.len() {
                bytes_eq(&packed[j].name, &loose[i].name)
            } else {
                false
            };
            let c = copy_reference(&loose[i]);
            out.push(c);
            proof {
                assert(out@ == pre.push(c));
                lemma_after_push_loose(pre, c, loose@, packed@, i as int, j as int, shadowed);
                assert(from_loose(c, loose@)) by {
                    assert(ref_matches(c, loose@[i as int]));
                }
                assert forall|k: int| 0 <= k < out@.len() implies from_loose(
                    #[trigger] out@[k],
                    loose@,
                ) || ref_from_packed(out@[k], packed@) by {
                    if k < pre.len() {
                        assert(out@[k] == pre[k]);
                    }
                }
                assert forall|m: int| 0 <= m < i + 1 implies has_name(
                    out@,
                    (#[trigger] loose@[m]).name@,
                ) by {
                    if m < i {
                        lemma_has_name_push(pre, c, loose@[m].name@);
                    } else {
                        assert(out@[pre.len() as int].name@ == loose@[m].name@);
                    }
                }
                let ghost j2 = if shadowed {
                    j + 1
                } else {
                    j as int
                };
                assert forall|m: int| 0 <= m < j2 implies has_name(
                    out@,
                    (#[trigger] packed@[m]).name@,
                ) by {
                    if m < j {
                        lemma_has_name_push(pre, c, packed@[m].name@);
                    } else {
                        assert(out@[pre.len() as int].name@ == packed@[m].name@);
                    }
                }
            }
            i = i + 1;
            if shadowed {
                j = j + 1;
            }
        } else {
            let c = Reference {
                name: copy_bytes(&packed[j].name),
                target: Target::Object(packed[j].id),
            };
            out.push(c);
            proof {
                assert(out@ == pre.push(c));
                lemma_after_push_packed(pre, c, loose@, packed@, i as int, j as int);
                assert(ref_from_packed(c, packed@)) by {
                    assert(c.name@ == (#[trigger] packed@[j as int]).name@);
                }
                assert forall|k: int| 0 <= k < out@.len() implies from_loose(
                    #[trigger] out@[k],
                    loose@,
                ) || ref_from_packed(out@[k], packed@) by {
                    if k < pre.len() {
                        assert(out@[k] == pre[k]);
                    }
                }
                assert forall|m: int| 0 <= m < i implies has_name(
                    out@,
                    (#[trigger] loose@[m]).name@,
                ) by {
                    lemma_has_name_push(pre, c, loose@[m].name@);
                }
                assert forall|m: int| 0 <= m < j + 1 implies has_name(
                    out@,
                    (#[trigger] packed@[m]).name@,
                ) by {
                    if m < j {
                        lemma_has_name_push(pre, c, packed@[m].name@);
                    } else {
                        assert(out@[pre.len() as int].name@ == packed@[m].name@);
                    }
                }
            }
            j = j + 1;
        }
    }
    out
}

/// After pushing the loose entry at `i` (shadowing the packed entry at `j`
/// when their names are equal), the merge invariants hold again.
#[verifier::rlimit(100)]
proof fn lemma_after_push_loose(
    pre: Seq<Reference>,
    c: Reference,
    loose: Seq<Reference>,
    packed: Seq<PackedRef>,
    i: int,
    j: int,
    shadowed: bool,
)
    requires
        loose_sorted(loose),
        packed_sorted(packed),
        0 <= i < loose.len(),
        0 <= j <= packed.len(),
        c.name@ == loose[i].name@,
        pre.len() > 0 ==> bytes_lt(pre[pre.len() - 1].name@, loose[i].name@),
        shadowed ==> j < packed.len() && packed[j].name@ == loose[i].name@,
        !shadowed && j < packed.len() ==> !bytes_lt(packed[j].name@, loose[i].name@) && !(
        packed[j].name@ == loose[i].name@),
        loose_sorted(pre),
    ensures
        forall|k: int|
            0 <= k && k + 1 < pre.push(c).len() ==> bytes_lt(
                (#[trigger] pre.push(c)[k]).name@,
                pre.push(c)[k + 1].name@,
            ),
        i + 1 < loose.len() ==> bytes_lt(c.name@, loose[i + 1].name@),
        (if shadowed {
            j + 1
        } else {
            j
        }) < packed.len() ==> bytes_lt(
            c.name@,
            packed[if shadowed {
                j + 1
            } else {
                j
            }].name@,
        ),
{
    let cur = pre.push(c);
    assert forall|k: int| 0 <= k && k + 1 < cur.len() implies bytes_lt(
        (#[trigger] cur[k]).name@,
        cur[k + 1].name@,
    ) by {
        if k + 1 < pre.len() {
            assert(cur[k] == pre[k] && cur[k + 1] == pre[k + 1]);
        } else {
            assert(cur[k] == pre[pre.len() - 1] && cur[k + 1] == c);
        }
    }
    if shadowed {
        if j + 1 < packed.len() {
            assert(bytes_lt(packed[j].name@, packed[j + 1].name@));
        }
    } else {
        if j < packed.len() {
            lemma_bytes_lt_connex(packed[j].name@, loose[i].name@);
        }
    }
}

/// After pushing the packed entry at `j`, the merge invariants hold again.
#[verifier::rlimit(100)]
proof fn lemma_after_push_packed(
    pre: Seq<Reference>,
    c: Reference,
    loose: Seq<Reference>,
    packed: Seq<PackedRef>,
    i: int,
    j: int,
)
    requires
        loose_sorted(loose),
        packed_sorted(packed),
        0 <= i <= loose.len(),
        0 <= j < packed.len(),
        c.name@ == packed[j].name@,
        loose_sorted(pre),
        pre.len() > 0 ==> bytes_lt(pre[pre.len() - 1].name@, packed[j].name@),
        i < loose.len() ==> bytes_lt(packed[j].name@, loose[i].name@),
    ensures
        forall|k: int|
            0 <= k && k + 1 < pre.push(c).len() ==> bytes_lt(
                (#[trigger] pre.push(c)[k]).name@,
                pre.push(c)[k + 1].name@,
            ),
        i < loose.len() ==> bytes_lt(c.name@, loose[i].name@),
        j + 1 < packed.len() ==> bytes_lt(c.name@, packed[j + 1].name@),
{
    let cur = pre.push(c);
    assert forall|k: int| 0 <= k && k + 1 < cur.len() implies bytes_lt(
        (#[trigger] cur[k]).name@,
        cur[k + 1].name@,
    ) by {
        if k + 1 < pre.len() {
            assert(cur[k] == pre[k] && cur[k + 1] == pre[k + 1]);
        } else {
            assert(cur[k] == pre[pre.len() - 1] && cur[k + 1] == c);
        }
    }
    if j + 1 < packed.len() {
        assert(bytes_lt(packed[j].name@, packed[j + 1].name@));
    }
}

} // verus!
