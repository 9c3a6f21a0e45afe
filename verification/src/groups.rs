use vstd::prelude::*;
use crate::context::Context;
use crate::field::{LargeField, vals};
use crate::rand_sh::dot;

verus! {

/// The views of a vector of vectors.
pub open spec fn views(v: Seq<Vec<LargeField>>) -> Seq<Seq<LargeField>> {
    v.map_values(|x: Vec<LargeField>| x@)
}

/// The field values of each group.
pub open spec fn group_vals(g: Seq<Seq<LargeField>>) -> Seq<Seq<nat>> {
    g.map_values(|x: Seq<LargeField>| vals(x))
}

/// `size` empty groups.
pub open spec fn empty_groups<T>(size: nat) -> Seq<Seq<T>> {
    Seq::new(size, |k: int| Seq::<T>::empty())
}

/// Appends `f[k]` to group `k` for each `k` that `f` reaches.
pub open spec fn add_column<T>(groups: Seq<Seq<T>>, f: Seq<T>) -> Seq<Seq<T>> {
    Seq::new(groups.len(), |k: int| if k < f.len() { groups[k].push(f[k]) } else { groups[k] })
}

/// Adds the columns `fs` one after the other to `size` empty groups.
pub open spec fn columns<T>(fs: Seq<Seq<T>>, size: nat) -> Seq<Seq<T>>
    decreases fs.len(),
{
    if fs.len() == 0 {
        empty_groups(size)
    } else {
        add_column(columns(fs.drop_last(), size), fs.last())
    }
}

/// The product of the matrix `m` with the vector `v`, in the field.
pub open spec fn mat_vec(m: Seq<Vec<LargeField>>, v: Seq<nat>) -> Seq<nat> {
    Seq::new(m.len(), |i: int| dot(vals(m[i]@), v))
}

/// The products of the matrix `m` with each group, concatenated in group order.
pub open spec fn mat_groups(m: Seq<Vec<LargeField>>, groups: Seq<Seq<nat>>) -> Seq<nat>
    decreases groups.len(),
{
    if groups.len() == 0 {
        Seq::empty()
    } else {
        mat_groups(m, groups.drop_last()) + mat_vec(m, groups.last())
    }
}

/// Adding columns keeps the number of groups.
pub proof fn lemma_columns_len<T>(fs: Seq<Seq<T>>, size: nat)
    ensures
        columns(fs, size).len() == size,
    decreases fs.len(),
{
    if fs.len() > 0 {
        lemma_columns_len(fs.drop_last(), size);
    }
}

/// Adding a column commutes with taking field values.
pub proof fn lemma_group_vals_add_column(g: Seq<Seq<LargeField>>, f: Seq<LargeField>)
    ensures
        group_vals(add_column(g, f)) == add_column(group_vals(g), vals(f)),
{
    assert forall|k: int| 0 <= k < g.len() implies group_vals(add_column(g, f))[k] == add_column(group_vals(g), vals(f))[k] by {
        if k < f.len() {
            assert(vals(g[k].push(f[k])) =~= vals(g[k]).push(f[k].val()));
        }
    }
    assert(group_vals(add_column(g, f)) =~= add_column(group_vals(g), vals(f)));
}

/// `size` empty groups.
pub fn new_groups(size: usize) -> (groups: Vec<Vec<LargeField>>)
    ensures
        views(groups@) == empty_groups::<LargeField>(size as nat),
{
    let mut groups: Vec<Vec<LargeField>> = Vec::new();
    for k in 0..size
        invariant
            groups@.len() == k,
            forall|j: int| 0 <= j < k ==> (#[trigger] groups@[j])@.len() == 0,
    {
        groups.push(Vec::new());
    }
    proof {
        assert forall|j: int| 0 <= j < size implies views(groups@)[j] =~= Seq::<LargeField>::empty() by {}
        assert(views(groups@) =~= empty_groups::<LargeField>(size as nat));
    }
    groups
}

/// Appends `f[k]` to group `k`, for each `k`.
pub fn push_column(groups: &mut Vec<Vec<LargeField>>, f: &Vec<LargeField>)
    requires
        f@.len() <= old(groups)@.len(),
    ensures
        views(final(groups)@) == add_column(views(old(groups)@), f@),
{
    let ghost prev = views(groups@);
    for k in 0..f.len()
        invariant
            f@.len() <= prev.len(),
            groups@.len() == prev.len(),
            forall|j: int| 0 <= j < prev.len() ==> (#[trigger] groups@[j])@ == (if j < k { prev[j].push(f@[j]) } else { prev[j] }),
    {
        let x = f[k];
        groups[k].push(x);
    }
    proof {
        assert(views(groups@) =~= add_column(prev, f@));
    }
}

/// Multiplies the matrix with each group and concatenates the results.
pub fn combine_all(matrix: &Vec<Vec<LargeField>>, groups: &Vec<Vec<LargeField>>) -> (r: Vec<LargeField>)
    ensures
        vals(r@) == mat_groups(matrix@, group_vals(views(groups@))),
        forall|i: int| 0 <= i < r@.len() ==> (#[trigger] r@[i]).canonical(),
{
    let mut out: Vec<LargeField> = Vec::new();
    for g in 0..groups.len()
        invariant
            vals(out@) == mat_groups(matrix@, group_vals(views(groups@)).take(g as int)),
            forall|i: int| 0 <= i < out@.len() ==> (#[trigger] out@[i]).canonical(),
    {
        let mut part = Context::matrix_vector_multiply(matrix, &groups[g]);
        proof {
            let gv = group_vals(views(groups@));
            assert(gv.take(g + 1).drop_last() =~= gv.take(g as int));
            assert(gv.take(g + 1).last() == vals(groups@[g as int]@));
            assert(vals(part@) =~= mat_vec(matrix@, vals(groups@[g as int]@)));
        }
        let ghost before = out@;
        let ghost added = part@;
        out.append(&mut part);
        proof {
            assert(vals(out@) =~= vals(before) + vals(added));
        }
    }
    proof {
        assert(group_vals(views(groups@)).take(groups@.len() as int) =~= group_vals(views(groups@)));
    }
    out
}

} // verus!
