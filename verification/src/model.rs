//! The mathematical model of spaces and dimensions: a deep view that forgets
//! how strings and vectors are laid out and keeps only their contents.

use crate::dimension::Dimension;
use crate::space::Space;
use vstd::prelude::*;

verus! {

/// The mathematical value of a [`Dimension`].
#[verifier::ext_equal]
pub enum DimView {
    Integer { loc: int },
    Real { bits: u64 },
    Space(SpaceView),
}

/// The mathematical value of a [`Space`]: its label and its dimension
/// entries, each a key with the view of its dimension.
#[verifier::ext_equal]
pub struct SpaceView {
    pub name: Seq<char>,
    pub entries: Seq<(Seq<char>, DimView)>,
}

/// The view of one dimension.
pub open spec fn dim_view(d: Dimension) -> DimView
    decreases d, 0int,
{
    match d {
        Dimension::Integer { loc } => DimView::Integer { loc: loc as int },
        Dimension::Real { bits } => DimView::Real { bits },
        Dimension::Space(sp) => DimView::Space(space_view(sp)),
    }
}

/// The view of one space.
pub open spec fn space_view(s: Space) -> SpaceView
    decreases s, 1int,
{
    SpaceView { name: s.name@, entries: entries_view_from(s.dims@, 0) }
}

/// The views of the entries of a dimension list, from position `i` on.
pub open spec fn entries_view_from(s: Seq<(String, Dimension)>, i: int) -> Seq<
    (Seq<char>, DimView),
>
    decreases s, s.len() - i,
{
    if i < 0 || i >= s.len() {
        Seq::empty()
    } else {
        seq![(s[i].0@, dim_view(s[i].1))] + entries_view_from(s, i + 1)
    }
}

/// The views of the entries of a dimension list.
pub open spec fn entries_view(s: Seq<(String, Dimension)>) -> Seq<(Seq<char>, DimView)> {
    entries_view_from(s, 0)
}

/// Whether some view entry of `s` carries the key `k`.
pub open spec fn kv_has_key(s: Seq<(Seq<char>, DimView)>, k: Seq<char>) -> bool {
    exists|i: int| 0 <= i < s.len() && s[i].0 == k
}

/// Relabels every entry keyed `from` to the key `to`, values untouched.
pub open spec fn relabel(s: Seq<(Seq<char>, DimView)>, from: Seq<char>, to: Seq<char>) -> Seq<
    (Seq<char>, DimView),
> {
    Seq::new(
        s.len(),
        |i: int|
            if s[i].0 == from {
                (to, s[i].1)
            } else {
                s[i]
            },
    )
}

/// Whether view entries have pairwise distinct keys: the view-level image of
/// a space's well-formedness.
pub open spec fn kv_wf(s: Seq<(Seq<char>, DimView)>) -> bool {
    forall|i: int, j: int| 0 <= i < j < s.len() ==> s[i].0 != s[j].0
}

/// A relabel whose new key is fresh (or is the old key itself) keeps the
/// entry keys pairwise distinct.
pub proof fn lemma_relabel_preserves_wf(s: Seq<(Seq<char>, DimView)>, from: Seq<char>, to: Seq<char>)
    requires
        kv_wf(s),
        !kv_has_key(s, to) || to == from,
    ensures
        kv_wf(relabel(s, from, to)),
{
    let r = relabel(s, from, to);
    assert forall|i: int, j: int| 0 <= i < j < r.len() implies r[i].0 != r[j].0 by {
        if s[i].0 == from && s[j].0 == from {
            assert(s[i].0 == s[j].0);
        }
    }
}

/// A dimension list's keys are pairwise distinct exactly when its entry
/// views' keys are.
pub proof fn lemma_wf_entries_view(v: Seq<(String, Dimension)>)
    ensures
        crate::space::dims_wf(v) <==> kv_wf(entries_view(v)),
{
    lemma_entries_view(v);
    let ev = entries_view(v);
    if crate::space::dims_wf(v) {
        assert forall|i: int, j: int| 0 <= i < j < ev.len() implies ev[i].0 != ev[j].0 by {
            assert(v[i].0@ != v[j].0@);
        }
    }
    if kv_wf(ev) {
        assert forall|i: int, j: int| 0 <= i < j < v.len() implies v[i].0@ != v[j].0@ by {
            assert(ev[i].0 != ev[j].0);
        }
    }
}

/// The view of a rename map: each pair of key strings as a pair of key views.
pub open spec fn pairs_view(m: Seq<(String, String)>) -> Seq<(Seq<char>, Seq<char>)> {
    m.map_values(|p: (String, String)| (p.0@, p.1@))
}

/// Applies the renames `m[k..]` to `s` in order. Fails with the first old key
/// that is absent at its step; later renames see the effect of earlier ones.
pub open spec fn rename_from(
    s: Seq<(Seq<char>, DimView)>,
    m: Seq<(Seq<char>, Seq<char>)>,
    k: int,
) -> Result<Seq<(Seq<char>, DimView)>, Seq<char>>
    decreases m.len() - k,
{
    if k < 0 || k >= m.len() {
        Ok(s)
    } else if !kv_has_key(s, m[k].0) {
        Err(m[k].0)
    } else {
        rename_from(relabel(s, m[k].0, m[k].1), m, k + 1)
    }
}

/// Applies a whole rename map to `s`, first entry first.
pub open spec fn rename_all(
    s: Seq<(Seq<char>, DimView)>,
    m: Seq<(Seq<char>, Seq<char>)>,
) -> Result<Seq<(Seq<char>, DimView)>, Seq<char>> {
    rename_from(s, m, 0)
}

/// Replaces the value of every entry keyed `k` by `d`, keys untouched; where
/// no entry has the key, the entries are left as they are.
pub open spec fn update_entry(s: Seq<(Seq<char>, DimView)>, k: Seq<char>, d: DimView) -> Seq<
    (Seq<char>, DimView),
> {
    Seq::new(
        s.len(),
        |i: int|
            if s[i].0 == k {
                (s[i].0, d)
            } else {
                s[i]
            },
    )
}

/// The view of an update map: each entry's key view with its dimension view.
pub open spec fn entry_pairs_view(m: Seq<(String, Dimension)>) -> Seq<(Seq<char>, DimView)> {
    m.map_values(|p: (String, Dimension)| (p.0@, dim_view(p.1)))
}

/// Applies the updates `m[k..]` to `s` in order. Total: an update whose key
/// is absent has no effect.
pub open spec fn update_from(
    s: Seq<(Seq<char>, DimView)>,
    m: Seq<(Seq<char>, DimView)>,
    k: int,
) -> Seq<(Seq<char>, DimView)>
    decreases m.len() - k,
{
    if k < 0 || k >= m.len() {
        s
    } else {
        update_from(update_entry(s, m[k].0, m[k].1), m, k + 1)
    }
}

/// Applies a whole update map to `s`, first entry first.
pub open spec fn update_all(s: Seq<(Seq<char>, DimView)>, m: Seq<(Seq<char>, DimView)>) -> Seq<
    (Seq<char>, DimView),
> {
    update_from(s, m, 0)
}

/// An update map without the target's keys leaves the target unchanged.
pub proof fn lemma_update_unknown_keys(s: Seq<(Seq<char>, DimView)>, m: Seq<(Seq<char>, DimView)>)
    requires
        forall|k: int| 0 <= k < m.len() ==> !kv_has_key(s, m[k].0),
    ensures
        update_all(s, m) == s,
{
    lemma_update_from_unknown_keys(s, m, 0);
}

proof fn lemma_update_from_unknown_keys(
    s: Seq<(Seq<char>, DimView)>,
    m: Seq<(Seq<char>, DimView)>,
    k: int,
)
    requires
        forall|j: int| 0 <= j < m.len() ==> !kv_has_key(s, m[j].0),
        0 <= k <= m.len(),
    ensures
        update_from(s, m, k) == s,
    decreases m.len() - k,
{
    if k < m.len() {
        assert(update_entry(s, m[k].0, m[k].1) =~= s);
        lemma_update_from_unknown_keys(s, m, k + 1);
    }
}

proof fn lemma_entries_view_from(s: Seq<(String, Dimension)>, k: int)
    requires
        0 <= k <= s.len(),
    ensures
        entries_view_from(s, k).len() == s.len() - k,
        forall|i: int|
            k <= i < s.len() ==> entries_view_from(s, k)[i - k] == (s[i].0@, dim_view(s[i].1)),
    decreases s.len() - k,
{
    if k < s.len() {
        lemma_entries_view_from(s, k + 1);
        assert forall|i: int|
            k <= i < s.len() implies entries_view_from(s, k)[i - k] == (
            s[i].0@,
            dim_view(s[i].1),
        ) by {
            if i > k {
                assert(entries_view_from(s, k)[i - k] == entries_view_from(s, k + 1)[i - k - 1]);
            }
        }
    }
}

/// The entry views line up with the entries, position by position.
pub proof fn lemma_entries_view(s: Seq<(String, Dimension)>)
    ensures
        entries_view(s).len() == s.len(),
        forall|i: int|
            0 <= i < s.len() ==> #[trigger] entries_view(s)[i] == (s[i].0@, dim_view(s[i].1)),
{
    lemma_entries_view_from(s, 0);
}

} // verus!
