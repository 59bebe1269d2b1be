//! Building the listing for one request: inject the parent row unless the
//! root itself is listed, then sort under the ordering policy.

use vstd::multiset::group_multiset_axioms;
use vstd::prelude::*;
use vstd::relations::sorted_by;
use vstd::seq_lib::group_to_multiset_ensures;

use crate::entry::{all_wf, entry_wf, models, parent_model, unique_names, EntryModel, ListEntry};
use crate::order::{
    entry_le_rel, entry_order, lemma_entry_le_full_implies_le, lemma_entry_order_total_ordering,
    lemma_sorted_unique_names, sort_entries,
};
use crate::render::render_spec;
use crate::time::clamp_ts;

verus! {

/// The rows handed to the ordering policy: the children, plus the parent row
/// when the listed directory is not the root.
pub open spec fn listing_input(children: Seq<EntryModel>, is_root: bool, now: int) -> Seq<
    EntryModel,
> {
    if is_root {
        children
    } else {
        children.push(parent_model(now))
    }
}

/// The listing for one request: the input rows sorted under the refined
/// ordering policy. With unique names this is the one sorted arrangement.
pub open spec fn listing_spec(children: Seq<EntryModel>, is_root: bool, now: int) -> Seq<
    EntryModel,
> {
    listing_input(children, is_root, now).sort_by(entry_order())
}

/// No child row carries the parent row's name.
pub open spec fn no_parent_name(children: Seq<EntryModel>) -> bool {
    forall|i: int| 0 <= i < children.len() ==> (#[trigger] children[i]).name != ".."@
}

proof fn lemma_count_ge_two(s: Seq<EntryModel>, p: int, q: int)
    requires
        0 <= p < q < s.len(),
        s[p] == s[q],
    ensures
        s.to_multiset().count(s[p]) >= 2,
{
    broadcast use group_to_multiset_ensures;
    broadcast use group_multiset_axioms;

    let t = s.remove(p);
    assert(s.remove(p).to_multiset() == s.to_multiset().remove(s[p]));
    assert(t[q - 1] == s[q]);
    assert(t.contains(s[p]));
    assert(t.to_multiset().count(s[p]) > 0);
}

proof fn lemma_two_indices_from_count(a: Seq<EntryModel>, x: EntryModel)
    requires
        a.to_multiset().count(x) >= 2,
    ensures
        exists|i: int, j: int| 0 <= i < j < a.len() && #[trigger] a[i] == x && #[trigger] a[j] == x,
{
    broadcast use group_to_multiset_ensures;
    broadcast use group_multiset_axioms;

    assert(a.to_multiset().count(x) > 0);
    assert(a.contains(x));
    let i = choose|i: int| 0 <= i < a.len() && a[i] == x;
    let t = a.remove(i);
    assert(a.remove(i).to_multiset() == a.to_multiset().remove(x));
    assert(t.to_multiset().count(x) > 0);
    assert(t.contains(x));
    let j0 = choose|j0: int| 0 <= j0 < t.len() && t[j0] == x;
    if j0 < i {
        assert(a[j0] == x);
        assert(a[i] == x);
    } else {
        assert(a[j0 + 1] == x);
        assert(a[i] == x);
    }
}

/// A rearrangement of rows with unique names has unique names.
pub proof fn lemma_unique_names_permutation(a: Seq<EntryModel>, b: Seq<EntryModel>)
    requires
        unique_names(a),
        a.to_multiset() == b.to_multiset(),
    ensures
        unique_names(b),
{
    broadcast use group_to_multiset_ensures;
    broadcast use group_multiset_axioms;

    assert forall|p: int, q: int|
        0 <= p < q < b.len() implies #[trigger] b[p].name != #[trigger] b[q].name by {
        if b[p].name == b[q].name {
            if b[p] == b[q] {
                lemma_count_ge_two(b, p, q);
                lemma_two_indices_from_count(a, b[p]);
                let (i, j): (int, int) = choose|i: int, j: int|
                    0 <= i < j < a.len() && #[trigger] a[i] == b[p] && #[trigger] a[j] == b[p];
                assert(a[i].name != a[j].name);
            } else {
                assert(b.contains(b[p]));
                assert(b.to_multiset().count(b[p]) > 0);
                assert(a.contains(b[p]));
                let i = choose|i: int| 0 <= i < a.len() && a[i] == b[p];
                assert(b.contains(b[q]));
                assert(b.to_multiset().count(b[q]) > 0);
                assert(a.contains(b[q]));
                let j = choose|j: int| 0 <= j < a.len() && a[j] == b[q];
                assert(i != j);
                if i < j {
                    assert(a[i].name != a[j].name);
                } else {
                    assert(a[j].name != a[i].name);
                }
            }
        }
    }
}

/// Every row of a rearrangement is a row of the original.
proof fn lemma_permutation_membership(a: Seq<EntryModel>, b: Seq<EntryModel>)
    requires
        a.to_multiset() == b.to_multiset(),
    ensures
        forall|k: int| 0 <= k < b.len() ==> a.contains(#[trigger] b[k]),
{
    broadcast use group_to_multiset_ensures;
    broadcast use group_multiset_axioms;

    assert forall|k: int| 0 <= k < b.len() implies a.contains(#[trigger] b[k]) by {
        assert(b.contains(b[k]));
        assert(b.to_multiset().count(b[k]) > 0);
    }
}

/// Builds the listing rows for one request: the parent row is appended if and
/// only if `is_root` is false, and everything is sorted under the ordering
/// policy. `now` (clamped into the renderable range) dates the parent row.
pub fn build_listing(children: Vec<ListEntry>, is_root: bool, now: i64) -> (r: Vec<ListEntry>)
    requires
        all_wf(models(children@)),
        unique_names(models(children@)),
        no_parent_name(models(children@)),
    ensures
        models(r@) == listing_spec(models(children@), is_root, clamp_ts(now as int)),
        sorted_by(models(r@), entry_le_rel()),
        all_wf(models(r@)),
        unique_names(models(r@)),
        r@.len() == children@.len() + (if is_root {
            0int
        } else {
            1int
        }),
{
    let ghost cm = models(children@);
    let ghost input = listing_input(cm, is_root, clamp_ts(now as int));
    let mut v = children;
    if !is_root {
        let p = ListEntry::parent(now);
        v.push(p);
    }
    proof {
        assert(models(v@) =~= input);
        assert(unique_names(input)) by {
            if !is_root {
                assert(forall|i: int|
                    0 <= i < input.len() - 1 ==> #[trigger] input[i] == cm[i]);
            }
        }
        assert(all_wf(input)) by {
            if !is_root {
                assert(forall|i: int|
                    0 <= i < input.len() - 1 ==> #[trigger] input[i] == cm[i]);
                assert(entry_wf(input[input.len() - 1]));
            }
        }
    }
    sort_entries(&mut v);
    proof {
        broadcast use group_to_multiset_ensures;
        broadcast use group_multiset_axioms;

        lemma_entry_order_total_ordering();
        input.lemma_sort_by_ensures(entry_order());
        let y = input.sort_by(entry_order());
        let rel = entry_le_rel();
        let full = entry_order();
        assert forall|p: int, q: int| 0 <= p < q < y.len() implies #[trigger] rel(
            y[p],
            y[q],
        ) by {
            assert(full(y[p], y[q]));
            lemma_entry_le_full_implies_le(y[p], y[q]);
        }
        assert(sorted_by(y, rel));
        lemma_unique_names_permutation(input, models(v@));
        lemma_sorted_unique_names(models(v@), y);
        assert(models(v@) == y);
        lemma_permutation_membership(input, models(v@));
        assert forall|k: int| 0 <= k < models(v@).len() implies entry_wf(
            #[trigger] models(v@)[k],
        ) by {
            assert(input.contains(models(v@)[k]));
            let i = choose|i: int| 0 <= i < input.len() && input[i] == models(v@)[k];
            assert(entry_wf(input[i]));
        }
    }
    v
}

/// The parent row is present in a listing if and only if the request subpath
/// is not the root: absent from a root listing, present exactly once
/// otherwise, a directory named `".."` without a size.
pub proof fn lemma_parent_presence(children: Seq<EntryModel>, is_root: bool, now: int)
    requires
        unique_names(children),
        no_parent_name(children),
    ensures
        is_root ==> forall|k: int|
            0 <= k < listing_spec(children, is_root, now).len() ==> (#[trigger] listing_spec(
                children,
                is_root,
                now,
            )[k]).name != ".."@,
        !is_root ==> exists|k: int|
            0 <= k < listing_spec(children, is_root, now).len() && #[trigger] listing_spec(
                children,
                is_root,
                now,
            )[k] == parent_model(now),
        !is_root ==> forall|k: int, m: int|
            0 <= k < m < listing_spec(children, is_root, now).len() ==> ((#[trigger] listing_spec(
                children,
                is_root,
                now,
            )[k]).name != ".."@ || (#[trigger] listing_spec(children, is_root, now)[m]).name
                != ".."@),
{
    broadcast use group_to_multiset_ensures;
    broadcast use group_multiset_axioms;

    let input = listing_input(children, is_root, now);
    let l = listing_spec(children, is_root, now);
    lemma_entry_order_total_ordering();
    input.lemma_sort_by_ensures(entry_order());
    lemma_permutation_membership(input, l);
    if is_root {
        assert forall|k: int| 0 <= k < l.len() implies (#[trigger] l[k]).name != ".."@ by {
            assert(input.contains(l[k]));
            let i = choose|i: int| 0 <= i < input.len() && input[i] == l[k];
            assert(children[i].name != ".."@);
        }
    } else {
        assert(unique_names(input)) by {
            assert(forall|i: int| 0 <= i < input.len() - 1 ==> #[trigger] input[i] == children[i]);
        }
        assert(input[input.len() - 1] == parent_model(now));
        assert(input.contains(parent_model(now)));
        assert(input.to_multiset().count(parent_model(now)) > 0);
        assert(l.to_multiset().count(parent_model(now)) > 0);
        assert(l.contains(parent_model(now)));
        lemma_unique_names_permutation(input, l);
    }
}

/// Repeated listing of one unchanged filesystem state yields one page: any
/// two sorted arrangements of the same rows, with names unique, render to
/// byte-identical HTML.
pub proof fn lemma_render_deterministic(x: Seq<EntryModel>, y: Seq<EntryModel>)
    requires
        sorted_by(x, entry_le_rel()),
        sorted_by(y, entry_le_rel()),
        unique_names(x),
        x.to_multiset() == y.to_multiset(),
    ensures
        render_spec(x) == render_spec(y),
{
    lemma_sorted_unique_names(x, y);
}

} // verus!
