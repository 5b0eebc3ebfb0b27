//! The composite type of the schema algebra: a named collection of uniquely
//! keyed dimensions, with the composition operators that build larger state
//! spaces out of smaller ones.

use crate::dimension::Dimension;
use crate::model::{
    dim_view, entries_view, entry_pairs_view, kv_has_key, lemma_entries_view, pairs_view, relabel,
    rename_all, rename_from, space_view, update_all, update_entry, update_from, DimView,
};
use crate::text::{dec_digits, lemma_concat_cancel_left, lemma_dec_digits_injective, push_dec};
use vstd::prelude::*;
use vstd::string::StringExecFns;

verus! {

/// The one failure the library can report: a rename asked for a dimension
/// name that the space does not have.
pub enum SpaceError {
    MissingDimension { key: String },
}

/// A named state space: a label plus a mapping from dimension name to
/// [`Dimension`]. The mapping is held as a vector of key/value pairs whose
/// keys are unique (see [`dims_wf`]); the order of entries carries no meaning.
pub struct Space {
    pub name: String,
    pub dims: Vec<(String, Dimension)>,
}

/// Whether a dimension list has pairwise distinct keys: the well-formedness
/// invariant that every composition operator maintains.
pub open spec fn dims_wf(s: Seq<(String, Dimension)>) -> bool {
    forall|i: int, j: int| 0 <= i < j < s.len() ==> s[i].0@ != s[j].0@
}

/// Whether some entry of `s` carries the key `k`.
pub open spec fn has_key(s: Seq<(String, Dimension)>, k: Seq<char>) -> bool {
    exists|i: int| 0 <= i < s.len() && s[i].0@ == k
}

/// The set of dimension values of a space, as views, key labels forgotten.
pub open spec fn dim_view_values(s: Space) -> Set<DimView> {
    Set::new(
        |dv: DimView| exists|i: int| 0 <= i < s.dims@.len() && dim_view(s.dims@[i].1) == dv,
    )
}

/// What the cartesian product of `a` and `b` (in this order) returns: a space
/// named `a * b` with exactly two entries, `a` and `b` themselves nested as
/// sub-spaces, keyed by their own names; equal names are told apart by the
/// suffixes `_0` (left operand) and `_1` (right operand).
pub open spec fn product_post(a: Space, b: Space, r: Space) -> bool {
    &&& r.name@ == a.name@ + " * "@ + b.name@
    &&& r.dims@.len() == 2
    &&& r.dims@[0].1 == Dimension::Space(a)
    &&& r.dims@[1].1 == Dimension::Space(b)
    &&& (a.name@ == b.name@ ==> r.dims@[0].0@ == a.name@ + "_0"@ && r.dims@[1].0@ == b.name@
        + "_1"@)
    &&& (a.name@ != b.name@ ==> r.dims@[0].0@ == a.name@ && r.dims@[1].0@ == b.name@)
}

impl Space {
    /// Whether this space's dimension keys are pairwise distinct.
    pub open spec fn wf(self) -> bool {
        dims_wf(self.dims@)
    }

    /// Builds a space from a label and a dimension list. A total constructor:
    /// no validation is performed.
    pub fn new(name: String, dims: Vec<(String, Dimension)>) -> (s: Space)
        ensures
            s.name@ == name@,
            s.dims@ == dims@,
    {
        Space { name, dims }
    }

    /// The space's label.
    pub fn name(&self) -> (r: &String)
        ensures
            r@ == self.name@,
    {
        &self.name
    }

    /// The space's dimension entries.
    pub fn dims(&self) -> (r: &Vec<(String, Dimension)>)
        ensures
            r@ == self.dims@,
    {
        &self.dims
    }

    /// Whether the space has no dimensions at all. An empty space is a valid,
    /// distinguishable value.
    pub fn is_empty(&self) -> (r: bool)
        ensures
            r == (self.dims@.len() == 0),
    {
        self.dims.len() == 0
    }

    /// Looks a dimension up by its name.
    pub fn get(&self, key: &String) -> (r: Option<&Dimension>)
        ensures
            match r {
                Some(d) => exists|i: int|
                    0 <= i < self.dims@.len() && self.dims@[i].0@ == key@ && self.dims@[i].1
                        == *d,
                None => !has_key(self.dims@, key@),
            },
    {
        let mut i: usize = 0;
        while i < self.dims.len()
            invariant
                i <= self.dims@.len(),
                forall|j: int| 0 <= j < i ==> self.dims@[j].0@ != key@,
            decreases self.dims@.len() - i,
        {
            if self.dims[i].0 == *key {
                return Some(&self.dims[i].1);
            }
            i += 1;
        }
        None
    }

    /// The cartesian product: nests `self` and `rhs` as the two dimensions of
    /// a new space named `self * rhs`.
    pub fn mul(self, rhs: Space) -> (r: Space)
        ensures
            product_post(self, rhs, r),
            r.wf(),
    {
        let name = self.name.clone().concat(" * ").concat(rhs.name.as_str());
        let mut key_l = self.name.clone();
        let mut key_r = rhs.name.clone();
        if key_l == key_r {
            key_l.append("_0");
            key_r.append("_1");
        }
        proof {
            if self.name@ == rhs.name@ {
                reveal_strlit("_0");
                reveal_strlit("_1");
                let n = self.name@.len() as int;
                assert((self.name@ + "_0"@)[n + 1] == '0');
                assert((rhs.name@ + "_1"@)[n + 1] == '1');
            }
        }
        let mut dims: Vec<(String, Dimension)> = Vec::new();
        dims.push((key_l, Dimension::Space(self)));
        dims.push((key_r, Dimension::Space(rhs)));
        Space { name, dims }
    }
}

/// The name of the `n`-fold self-product of a space named `s`: the label
/// repeated `n` times, joined by ` * `.
pub open spec fn pow_name(s: Seq<char>, n: nat) -> Seq<char>
    decreases n,
{
    if n <= 1 {
        s
    } else {
        pow_name(s, (n - 1) as nat) + " * "@ + s
    }
}

/// The key an operand's entry gets in a merge: its own key, or the key with
/// the operand's suffix appended where the other operand also has the key.
pub open spec fn merge_key(
    k: Seq<char>,
    other: Seq<(String, Dimension)>,
    suffix: Seq<char>,
) -> Seq<char> {
    if has_key(other, k) {
        k + suffix
    } else {
        k
    }
}

/// Whether the suffix policy leaves the merged keys pairwise distinct. This
/// can only fail where a dimension name already ends in `_0` or `_1` in a way
/// that clashes with a suffixed colliding name.
pub open spec fn merge_ok(a: Seq<(String, Dimension)>, b: Seq<(String, Dimension)>) -> bool {
    &&& forall|i: int, j: int|
        0 <= i < j < a.len() ==> merge_key(a[i].0@, b, "_0"@) != merge_key(a[j].0@, b, "_0"@)
    &&& forall|i: int, j: int|
        0 <= i < j < b.len() ==> merge_key(b[i].0@, a, "_1"@) != merge_key(b[j].0@, a, "_1"@)
    &&& forall|i: int, j: int|
        0 <= i < a.len() && 0 <= j < b.len() ==> merge_key(a[i].0@, b, "_0"@) != merge_key(
            b[j].0@,
            a,
            "_1"@,
        )
}

/// What the merge of `a` and `b` (in this order) returns: a space named
/// `a + b` whose entries are all of `a`'s followed by all of `b`'s, each under
/// its [`merge_key`], values untouched. Keys that collide in neither operand
/// keep their very key string.
pub open spec fn merge_post(a: Space, b: Space, r: Space) -> bool {
    &&& r.name@ == a.name@ + " + "@ + b.name@
    &&& r.dims@.len() == a.dims@.len() + b.dims@.len()
    &&& forall|i: int|
        0 <= i < a.dims@.len() ==> ((#[trigger] r.dims@[i]).0@ == merge_key(
            a.dims@[i].0@,
            b.dims@,
            "_0"@,
        ) && dim_view(r.dims@[i].1) == dim_view(a.dims@[i].1) && (!has_key(
            b.dims@,
            a.dims@[i].0@,
        ) ==> r.dims@[i].0 == a.dims@[i].0))
    &&& forall|i: int|
        0 <= i < b.dims@.len() ==> ((#[trigger] r.dims@[a.dims@.len() + i]).0@ == merge_key(
            b.dims@[i].0@,
            a.dims@,
            "_1"@,
        ) && dim_view(r.dims@[a.dims@.len() + i].1) == dim_view(b.dims@[i].1) && (!has_key(
            a.dims@,
            b.dims@[i].0@,
        ) ==> r.dims@[a.dims@.len() + i].0 == b.dims@[i].0))
}

impl Space {
    /// The `rhs`-fold self-product `self * self * ... * self`, built directly:
    /// `rhs` copies of `self`, keyed `name_0`, ..., `name_{rhs-1}`. For
    /// `rhs <= 1` the operation is the identity.
    pub fn pow(self, rhs: u8) -> (r: Space)
        ensures
            rhs <= 1 ==> r == self,
            rhs > 1 ==> r.name@ == pow_name(self.name@, rhs as nat),
            rhs > 1 ==> r.dims@.len() == rhs as int,
            rhs > 1 ==> forall|i: int|
                0 <= i < rhs as int ==> ((#[trigger] r.dims@[i]).0@ == self.name@ + "_"@
                    + dec_digits(i as nat) && dim_view(r.dims@[i].1) == DimView::Space(
                    space_view(self),
                )),
            rhs > 1 ==> r.wf(),
    {
        if rhs > 1 {
            let mut name = self.name.clone();
            let mut j: u8 = 1;
            while j < rhs
                invariant
                    1 <= j <= rhs,
                    name@ == pow_name(self.name@, j as nat),
                decreases rhs - j,
            {
                name.append(" * ");
                name.append(self.name.as_str());
                j += 1;
            }
            let mut dims: Vec<(String, Dimension)> = Vec::new();
            let mut i: u8 = 0;
            while i < rhs
                invariant
                    i <= rhs,
                    dims@.len() == i as int,
                    forall|k: int|
                        0 <= k < i as int ==> ((#[trigger] dims@[k]).0@ == self.name@ + "_"@
                            + dec_digits(k as nat) && dim_view(dims@[k].1) == DimView::Space(
                            space_view(self),
                        )),
                decreases rhs - i,
            {
                let mut key = self.name.clone();
                key.append("_");
                push_dec(&mut key, i as u64);
                let copy = self.clone();
                dims.push((key, Dimension::Space(copy)));
                i += 1;
            }
            proof {
                assert forall|k: int, l: int|
                    0 <= k < l < dims@.len() implies dims@[k].0@ != dims@[l].0@ by {
                    lemma_dec_digits_injective(k as nat, l as nat);
                    if dims@[k].0@ == dims@[l].0@ {
                        lemma_concat_cancel_left(
                            self.name@ + "_"@,
                            dec_digits(k as nat),
                            dec_digits(l as nat),
                        );
                    }
                }
            }
            Space { name, dims }
        } else {
            self
        }
    }

    /// The merge: flattens the dimension entries of `self` and `rhs` into one
    /// combined map, named `self + rhs`; a name present in both operands is
    /// kept twice, under the suffixes `_0` (from `self`) and `_1` (from
    /// `rhs`), so no entry is lost.
    pub fn add(self, rhs: Space) -> (r: Space)
        requires
            dims_wf(self.dims@),
            dims_wf(rhs.dims@),
            merge_ok(self.dims@, rhs.dims@),
        ensures
            merge_post(self, rhs, r),
            r.wf(),
    {
        let name = self.name.clone().concat(" + ").concat(rhs.name.as_str());
        let ghost a = self.dims@;
        let ghost b = rhs.dims@;
        let mut dims: Vec<(String, Dimension)> = Vec::new();
        let mut i: usize = 0;
        while i < self.dims.len()
            invariant
                i <= a.len(),
                dims@.len() == i as int,
                a == self.dims@,
                b == rhs.dims@,
                forall|k: int|
                    0 <= k < i as int ==> ((#[trigger] dims@[k]).0@ == merge_key(
                        a[k].0@,
                        b,
                        "_0"@,
                    ) && dim_view(dims@[k].1) == dim_view(a[k].1) && (!has_key(b, a[k].0@)
                        ==> dims@[k].0 == a[k].0)),
            decreases a.len() - i,
        {
            let mut key = self.dims[i].0.clone();
            if contains_key(&rhs.dims, &self.dims[i].0) {
                key.append("_0");
            }
            let d = self.dims[i].1.clone();
            dims.push((key, d));
            i += 1;
        }
        let mut j: usize = 0;
        while j < rhs.dims.len()
            invariant
                j <= b.len(),
                dims@.len() == a.len() + j,
                a == self.dims@,
                b == rhs.dims@,
                forall|k: int|
                    0 <= k < a.len() ==> ((#[trigger] dims@[k]).0@ == merge_key(a[k].0@, b, "_0"@)
                        && dim_view(dims@[k].1) == dim_view(a[k].1) && (!has_key(b, a[k].0@)
                        ==> dims@[k].0 == a[k].0)),
                forall|k: int|
                    0 <= k < j as int ==> ((#[trigger] dims@[a.len() + k]).0@ == merge_key(
                        b[k].0@,
                        a,
                        "_1"@,
                    ) && dim_view(dims@[a.len() + k].1) == dim_view(b[k].1) && (!has_key(
                        a,
                        b[k].0@,
                    ) ==> dims@[a.len() + k].0 == b[k].0)),
            decreases b.len() - j,
        {
            let mut key = rhs.dims[j].0.clone();
            if contains_key(&self.dims, &rhs.dims[j].0) {
                key.append("_1");
            }
            let d = rhs.dims[j].1.clone();
            dims.push((key, d));
            j += 1;
        }
        proof {
            assert forall|k: int, l: int|
                0 <= k < l < dims@.len() implies dims@[k].0@ != dims@[l].0@ by {
                if k < a.len() {
                    assert(dims@[k].0@ == merge_key(a[k].0@, b, "_0"@));
                } else {
                    let m = k - a.len();
                    assert(dims@[a.len() + m].0@ == merge_key(b[m].0@, a, "_1"@));
                }
                if l < a.len() {
                    assert(dims@[l].0@ == merge_key(a[l].0@, b, "_0"@));
                } else {
                    let m = l - a.len();
                    assert(dims@[a.len() + m].0@ == merge_key(b[m].0@, a, "_1"@));
                }
            }
        }
        Space { name, dims }
    }
}

impl Space {
    /// Relabels, in place, the entries named by the keys of `map`: each entry
    /// keyed by an old name takes the paired new name, its value untouched.
    /// The renames apply first to last, each seeing the effect of the earlier
    /// ones. An old name absent at its step aborts the whole call: the space
    /// is left exactly as it was and the missing key is reported.
    pub fn rename_dims(&mut self, map: Vec<(String, String)>) -> (r: Result<(), SpaceError>)
        ensures
            final(self).name == old(self).name,
            match rename_all(entries_view(old(self).dims@), pairs_view(map@)) {
                Ok(v) => r is Ok && entries_view(final(self).dims@) == v,
                Err(k) => (r matches Err(SpaceError::MissingDimension { key }) && key@ == k
                    && final(self).dims@ == old(self).dims@),
            },
    {
        let ghost s0 = entries_view(self.dims@);
        let ghost mv = pairs_view(map@);
        let mut dims = clone_entries(&self.dims);
        proof {
            lemma_entries_view(dims@);
            lemma_entries_view(self.dims@);
            assert(entries_view(dims@) =~= s0);
        }
        let mut k: usize = 0;
        while k < map.len()
            invariant
                k <= map@.len(),
                mv == pairs_view(map@),
                mv.len() == map@.len(),
                self.dims@ == old(self).dims@,
                self.name == old(self).name,
                s0 == entries_view(old(self).dims@),
                rename_from(s0, mv, 0) == rename_from(entries_view(dims@), mv, k as int),
            decreases map@.len() - k,
        {
            let ghost d0 = dims@;
            let ghost ev0 = entries_view(dims@);
            proof {
                lemma_entries_view(d0);
            }
            let mut found = false;
            let mut j: usize = 0;
            while j < dims.len()
                invariant
                    j <= dims@.len(),
                    k < map@.len(),
                    dims@.len() == d0.len(),
                    forall|m: int| j <= m < d0.len() ==> dims@[m] == d0[m],
                    forall|m: int|
                        0 <= m < j ==> #[trigger] dims@[m] == (if d0[m].0@ == map@[
                            k as int
                        ].0@ {
                            (map@[k as int].1, d0[m].1)
                        } else {
                            d0[m]
                        }),
                    found == (exists|m: int| 0 <= m < j && d0[m].0@ == map@[k as int].0@),
                decreases d0.len() - j,
            {
                if dims[j].0 == map[k].0 {
                    dims[j].0 = map[k].1.clone();
                    found = true;
                }
                j += 1;
            }
            if !found {
                proof {
                    assert(dims@ =~= d0);
                    if kv_has_key(ev0, mv[k as int].0) {
                        let m = choose|m: int| 0 <= m < ev0.len() && ev0[m].0 == mv[k as int].0;
                        assert(d0[m].0@ == map@[k as int].0@);
                    }
                    assert(rename_from(ev0, mv, k as int) == Err::<
                        Seq<(Seq<char>, DimView)>,
                        Seq<char>,
                    >(mv[k as int].0));
                }
                return Err(SpaceError::MissingDimension { key: map[k].0.clone() });
            }
            k += 1;
            proof {
                lemma_entries_view(dims@);
                assert(entries_view(dims@) =~= relabel(ev0, mv[k - 1].0, mv[k - 1].1));
                assert(kv_has_key(ev0, mv[k - 1].0)) by {
                    let m = choose|m: int| 0 <= m < j && d0[m].0@ == map@[k - 1].0@;
                    assert(ev0[m].0 == mv[k - 1].0);
                }
            }
        }
        proof {
            assert(rename_from(s0, mv, 0) == Ok::<Seq<(Seq<char>, DimView)>, Seq<char>>(
                entries_view(dims@),
            ));
        }
        self.dims = dims;
        Ok(())
    }

    /// Replaces, in place, the value of the entry named `name` by `new`,
    /// unconditionally (see [`Dimension::update`]); where no entry has that
    /// name, nothing happens.
    fn update_dim(&mut self, name: String, new: Dimension)
        ensures
            final(self).name == old(self).name,
            final(self).dims@.len() == old(self).dims@.len(),
            forall|i: int|
                0 <= i < old(self).dims@.len() ==> (#[trigger] final(self).dims@[i]).0 == old(
                    self,
                ).dims@[i].0,
            entries_view(final(self).dims@) == update_entry(
                entries_view(old(self).dims@),
                name@,
                dim_view(new),
            ),
    {
        let ghost d0 = self.dims@;
        let ghost ev0 = entries_view(self.dims@);
        proof {
            lemma_entries_view(d0);
        }
        let mut j: usize = 0;
        while j < self.dims.len()
            invariant
                j <= self.dims@.len(),
                self.name == old(self).name,
                d0 == old(self).dims@,
                self.dims@.len() == d0.len(),
                forall|m: int| j <= m < d0.len() ==> self.dims@[m] == d0[m],
                forall|m: int| 0 <= m < j ==> (#[trigger] self.dims@[m]).0 == d0[m].0,
                forall|m: int|
                    0 <= m < j ==> dim_view((#[trigger] self.dims@[m]).1) == (if d0[m].0@
                        == name@ {
                        dim_view(new)
                    } else {
                        dim_view(d0[m].1)
                    }),
            decreases d0.len() - j,
        {
            if self.dims[j].0 == name {
                self.dims[j].1 = new.clone();
            }
            j += 1;
        }
        proof {
            lemma_entries_view(self.dims@);
            assert(entries_view(self.dims@) =~= update_entry(ev0, name@, dim_view(new)));
        }
    }

    /// Applies a bulk update, in place: each entry of `dims`, first to last,
    /// replaces the value of the like-named dimension of the space. Entries
    /// whose key the space does not have are silently ignored; no key is ever
    /// added, removed or changed.
    pub fn update_dims(&mut self, dims: Vec<(String, Dimension)>)
        ensures
            final(self).name == old(self).name,
            final(self).dims@.len() == old(self).dims@.len(),
            forall|i: int|
                0 <= i < old(self).dims@.len() ==> (#[trigger] final(self).dims@[i]).0 == old(
                    self,
                ).dims@[i].0,
            entries_view(final(self).dims@) == update_all(
                entries_view(old(self).dims@),
                entry_pairs_view(dims@),
            ),
    {
        let ghost s0 = entries_view(self.dims@);
        let ghost mv = entry_pairs_view(dims@);
        let mut k: usize = 0;
        while k < dims.len()
            invariant
                k <= dims@.len(),
                mv == entry_pairs_view(dims@),
                mv.len() == dims@.len(),
                self.name == old(self).name,
                self.dims@.len() == old(self).dims@.len(),
                forall|i: int|
                    0 <= i < old(self).dims@.len() ==> (#[trigger] self.dims@[i]).0 == old(
                        self,
                    ).dims@[i].0,
                s0 == entries_view(old(self).dims@),
                update_from(s0, mv, 0) == update_from(entries_view(self.dims@), mv, k as int),
            decreases dims@.len() - k,
        {
            let key = dims[k].0.clone();
            let d = dims[k].1.clone();
            let ghost before = entries_view(self.dims@);
            self.update_dim(key, d);
            k += 1;
            proof {
                assert(entries_view(self.dims@) == update_entry(before, mv[k - 1].0, mv[k - 1].1));
            }
        }
    }
}

/// Well-formed operands with pairwise disjoint dimension names always meet
/// the merge's key-distinctness condition: no suffix is appended at all, and
/// the keys stay the operands' own.
pub proof fn lemma_disjoint_merge_ok(a: Seq<(String, Dimension)>, b: Seq<(String, Dimension)>)
    requires
        dims_wf(a),
        dims_wf(b),
        forall|i: int, j: int| 0 <= i < a.len() && 0 <= j < b.len() ==> a[i].0@ != b[j].0@,
    ensures
        merge_ok(a, b),
        forall|i: int| 0 <= i < a.len() ==> merge_key(#[trigger] a[i].0@, b, "_0"@) == a[i].0@,
        forall|i: int| 0 <= i < b.len() ==> merge_key(#[trigger] b[i].0@, a, "_1"@) == b[i].0@,
{
    assert forall|i: int| 0 <= i < a.len() implies merge_key(
        #[trigger] a[i].0@,
        b,
        "_0"@,
    ) == a[i].0@ by {
        if has_key(b, a[i].0@) {
            let j = choose|j: int| 0 <= j < b.len() && b[j].0@ == a[i].0@;
        }
    }
    assert forall|i: int| 0 <= i < b.len() implies merge_key(
        #[trigger] b[i].0@,
        a,
        "_1"@,
    ) == b[i].0@ by {
        if has_key(a, b[i].0@) {
            let j = choose|j: int| 0 <= j < a.len() && a[j].0@ == b[i].0@;
        }
    }
}

/// Merging spaces with disjoint dimension names loses no key and changes no
/// entry: the result's entries are the two operands' entries side by side,
/// under their very key strings, and the result's entry views are the
/// concatenation of the operands' entry views.
pub proof fn lemma_merge_disjoint(a: Space, b: Space, r: Space)
    requires
        merge_post(a, b, r),
        forall|i: int, j: int|
            0 <= i < a.dims@.len() && 0 <= j < b.dims@.len() ==> a.dims@[i].0@ != b.dims@[j].0@,
    ensures
        r.dims@.len() == a.dims@.len() + b.dims@.len(),
        forall|i: int|
            0 <= i < a.dims@.len() ==> ((#[trigger] r.dims@[i]).0 == a.dims@[i].0 && dim_view(
                r.dims@[i].1,
            ) == dim_view(a.dims@[i].1)),
        forall|i: int|
            0 <= i < b.dims@.len() ==> ((#[trigger] r.dims@[a.dims@.len() + i]).0 == b.dims@[i].0
                && dim_view(r.dims@[a.dims@.len() + i].1) == dim_view(b.dims@[i].1)),
        entries_view(r.dims@) == entries_view(a.dims@) + entries_view(b.dims@),
{
    assert forall|i: int| 0 <= i < a.dims@.len() implies !has_key(b.dims@, a.dims@[i].0@) by {
        if has_key(b.dims@, a.dims@[i].0@) {
            let j = choose|j: int| 0 <= j < b.dims@.len() && b.dims@[j].0@ == a.dims@[i].0@;
        }
    }
    assert forall|i: int| 0 <= i < b.dims@.len() implies !has_key(a.dims@, b.dims@[i].0@) by {
        if has_key(a.dims@, b.dims@[i].0@) {
            let j = choose|j: int| 0 <= j < a.dims@.len() && a.dims@[j].0@ == b.dims@[i].0@;
        }
    }
    lemma_entries_view(r.dims@);
    lemma_entries_view(a.dims@);
    lemma_entries_view(b.dims@);
    assert forall|i: int|
        0 <= i < r.dims@.len() implies (entries_view(a.dims@) + entries_view(b.dims@))[i]
        == entries_view(r.dims@)[i] by {
        if i < a.dims@.len() {
            assert((entries_view(a.dims@) + entries_view(b.dims@))[i] == entries_view(a.dims@)[i]);
            assert(r.dims@[i].0@ == a.dims@[i].0@);
        } else {
            let m = i - a.dims@.len();
            assert((entries_view(a.dims@) + entries_view(b.dims@))[i] == entries_view(
                b.dims@,
            )[m]);
            assert(r.dims@[a.dims@.len() + m].0 == b.dims@[m].0);
            assert(r.dims@[i].0@ == b.dims@[m].0@);
        }
    }
    assert(entries_view(r.dims@) =~= entries_view(a.dims@) + entries_view(b.dims@));
}

/// Product content is order-independent: products of the same two spaces, in
/// either order, hold the same two nested sub-spaces (as a set of dimension
/// views), though their labels differ in operand order.
pub proof fn lemma_product_content_commutes(
    a1: Space,
    b1: Space,
    a2: Space,
    b2: Space,
    ab: Space,
    ba: Space,
)
    requires
        product_post(a1, b1, ab),
        product_post(b2, a2, ba),
        space_view(a1) == space_view(a2),
        space_view(b1) == space_view(b2),
    ensures
        ab.dims@.len() == 2,
        ba.dims@.len() == 2,
        dim_view_values(ab) =~= dim_view_values(ba),
{
    assert(dim_view(ab.dims@[0].1) == DimView::Space(space_view(a1)));
    assert(dim_view(ab.dims@[1].1) == DimView::Space(space_view(b1)));
    assert(dim_view(ba.dims@[0].1) == DimView::Space(space_view(b2)));
    assert(dim_view(ba.dims@[1].1) == DimView::Space(space_view(a2)));
    assert forall|dv: DimView| dim_view_values(ab).contains(dv) implies dim_view_values(
        ba,
    ).contains(dv) by {
        let i = choose|i: int| 0 <= i < ab.dims@.len() && dim_view(ab.dims@[i].1) == dv;
        if i == 0 {
            assert(dim_view(ba.dims@[1].1) == dv);
        } else {
            assert(dim_view(ba.dims@[0].1) == dv);
        }
    }
    assert forall|dv: DimView| dim_view_values(ba).contains(dv) implies dim_view_values(
        ab,
    ).contains(dv) by {
        let i = choose|i: int| 0 <= i < ba.dims@.len() && dim_view(ba.dims@[i].1) == dv;
        if i == 0 {
            assert(dim_view(ab.dims@[1].1) == dv);
        } else {
            assert(dim_view(ab.dims@[0].1) == dv);
        }
    }
}

/// Whether a dimension list holds an entry with key `k`.
pub fn contains_key(v: &Vec<(String, Dimension)>, key: &String) -> (r: bool)
    ensures
        r == has_key(v@, key@),
{
    let mut i: usize = 0;
    while i < v.len()
        invariant
            i <= v@.len(),
            forall|j: int| 0 <= j < i ==> v@[j].0@ != key@,
        decreases v@.len() - i,
    {
        if v[i].0 == *key {
            return true;
        }
        i += 1;
    }
    false
}

/// A deep copy of a dimension list: keys equal, dimension views equal.
pub fn clone_entries(v: &Vec<(String, Dimension)>) -> (r: Vec<(String, Dimension)>)
    ensures
        r@.len() == v@.len(),
        forall|i: int|
            0 <= i < v@.len() ==> #[trigger] r@[i].0 == v@[i].0 && dim_view(r@[i].1) == dim_view(
                v@[i].1,
            ),
    decreases v@,
{
    let mut out: Vec<(String, Dimension)> = Vec::new();
    let mut i: usize = 0;
    while i < v.len()
        invariant
            i <= v@.len(),
            out@.len() == i,
            forall|j: int|
                0 <= j < i ==> #[trigger] out@[j].0 == v@[j].0 && dim_view(out@[j].1) == dim_view(
                    v@[j].1,
                ),
        decreases v@.len() - i,
    {
        let k = v[i].0.clone();
        let d = v[i].1.clone();
        out.push((k, d));
        i += 1;
    }
    out
}

impl Clone for Space {
    /// A deep copy: its view equals the original's, and its keys are the very
    /// same strings.
    fn clone(&self) -> (r: Self)
        ensures
            space_view(r) == space_view(*self),
            r.name == self.name,
            r.dims@.len() == self.dims@.len(),
            forall|i: int|
                0 <= i < self.dims@.len() ==> #[trigger] r.dims@[i].0 == self.dims@[i].0
                    && dim_view(r.dims@[i].1) == dim_view(self.dims@[i].1),
        decreases *self,
    {
        let r = Space { name: self.name.clone(), dims: clone_entries(&self.dims) };
        proof {
            lemma_entries_view(r.dims@);
            lemma_entries_view(self.dims@);
            assert(entries_view(r.dims@) =~= entries_view(self.dims@));
            assert(space_view(r) =~~= space_view(*self));
        }
        r
    }
}

} // verus!
