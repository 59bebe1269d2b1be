//! The ordering policy: directories before files, names ascending by code
//! point within each category. The policy is proved to be a total preorder,
//! and its refinement by the remaining fields a total order, so a sorted
//! listing is unique once names are unique.

use vstd::prelude::*;
use vstd::relations::{sorted_by, total_ordering};
use vstd::seq_lib::group_to_multiset_ensures;
use vstd::multiset::group_multiset_axioms;

use crate::entry::{models, unique_names, EntryModel, ListEntry};

verus! {

/// Lexicographic (code-point) order on names: `a` is no later than `b`.
pub open spec fn lex_le(a: Seq<char>, b: Seq<char>) -> bool
    decreases a.len(),
{
    if a.len() == 0 {
        true
    } else if b.len() == 0 {
        false
    } else if a[0] != b[0] {
        (a[0] as int) < (b[0] as int)
    } else {
        lex_le(a.drop_first(), b.drop_first())
    }
}

/// Any two names are lexicographically comparable.
pub proof fn lemma_lex_le_total(a: Seq<char>, b: Seq<char>)
    ensures
        lex_le(a, b) || lex_le(b, a),
    decreases a.len(),
{
    if a.len() != 0 && b.len() != 0 && a[0] == b[0] {
        lemma_lex_le_total(a.drop_first(), b.drop_first());
    }
}

/// Names ordered both ways are equal.
pub proof fn lemma_lex_le_antisymmetric(a: Seq<char>, b: Seq<char>)
    requires
        lex_le(a, b),
        lex_le(b, a),
    ensures
        a == b,
    decreases a.len(),
{
    if a.len() == 0 {
        assert(b.len() == 0);
        assert(a =~= b);
    } else {
        assert(b.len() != 0);
        assert(a[0] == b[0]);
        lemma_lex_le_antisymmetric(a.drop_first(), b.drop_first());
        assert(a.drop_first().len() == b.drop_first().len());
        assert(a.len() == b.len());
        assert forall|i: int| 0 <= i < a.len() implies a[i] == b[i] by {
            if i > 0 {
                assert(a[i] == a.drop_first()[i - 1]);
                assert(b[i] == b.drop_first()[i - 1]);
            }
        }
        assert(a =~= b);
    }
}

/// Lexicographic order is transitive.
pub proof fn lemma_lex_le_transitive(a: Seq<char>, b: Seq<char>, c: Seq<char>)
    requires
        lex_le(a, b),
        lex_le(b, c),
    ensures
        lex_le(a, c),
    decreases a.len(),
{
    if a.len() != 0 {
        assert(b.len() != 0);
        assert(c.len() != 0);
        if a[0] == b[0] && b[0] == c[0] {
            lemma_lex_le_transitive(a.drop_first(), b.drop_first(), c.drop_first());
        }
    }
}

proof fn lemma_lex_le_skip(a: Seq<char>, b: Seq<char>, i: int)
    requires
        0 <= i <= a.len(),
        i <= b.len(),
        forall|j: int| 0 <= j < i ==> a[j] == b[j],
    ensures
        lex_le(a, b) == lex_le(a.skip(i), b.skip(i)),
    decreases i,
{
    if i > 0 {
        lemma_lex_le_skip(a.drop_first(), b.drop_first(), i - 1);
        assert(a.drop_first().skip(i - 1) =~= a.skip(i));
        assert(b.drop_first().skip(i - 1) =~= b.skip(i));
    } else {
        assert(a.skip(0) =~= a);
        assert(b.skip(0) =~= b);
    }
}

/// Compares two names in lexicographic (code-point) order.
pub(crate) fn lex_le_exec(a: &str, b: &str) -> (r: bool)
    ensures
        r == lex_le(a@, b@),
{
    let la = a.unicode_len();
    let lb = b.unicode_len();
    let mut i: usize = 0;
    while i < la && i < lb
        invariant
            la == a@.len(),
            lb == b@.len(),
            i <= la,
            i <= lb,
            forall|j: int| 0 <= j < i ==> a@[j] == b@[j],
        decreases la - i,
    {
        let ca = a.get_char(i);
        let cb = b.get_char(i);
        if ca != cb {
            proof {
                lemma_lex_le_skip(a@, b@, i as int);
                assert(a@.skip(i as int)[0] == a@[i as int]);
                assert(b@.skip(i as int)[0] == b@[i as int]);
            }
            return (ca as u32) < (cb as u32);
        }
        i += 1;
    }
    proof {
        lemma_lex_le_skip(a@, b@, i as int);
        if i == la {
            assert(a@.skip(i as int).len() == 0);
        } else {
            assert(b@.skip(i as int).len() == 0);
            assert(a@.skip(i as int).len() > 0);
        }
    }
    la <= lb
}

/// The ordering policy: directories sort before files; within the same
/// category, names ascend lexicographically.
pub open spec fn entry_le(a: EntryModel, b: EntryModel) -> bool {
    if a.directory != b.directory {
        a.directory
    } else {
        lex_le(a.name, b.name)
    }
}

/// The ordering policy as a relation value.
pub open spec fn entry_le_rel() -> spec_fn(EntryModel, EntryModel) -> bool {
    |a: EntryModel, b: EntryModel| entry_le(a, b)
}

/// A size as an ordering key; the absent size sorts first.
pub open spec fn size_key(s: Option<u64>) -> int {
    match s {
        Option::None => -1,
        Option::Some(n) => n as int,
    }
}

/// The ordering policy refined by size and timestamp, a total order used to
/// name the sorted listing uniquely.
pub open spec fn entry_le_full(a: EntryModel, b: EntryModel) -> bool {
    if a.directory != b.directory {
        a.directory
    } else if a.name != b.name {
        lex_le(a.name, b.name)
    } else if size_key(a.size) != size_key(b.size) {
        size_key(a.size) < size_key(b.size)
    } else {
        a.modified <= b.modified
    }
}

/// The refined ordering policy as a relation value.
pub open spec fn entry_order() -> spec_fn(EntryModel, EntryModel) -> bool {
    |a: EntryModel, b: EntryModel| entry_le_full(a, b)
}

/// Any two entries are comparable under the ordering policy, and the policy
/// is transitive: sorting under it is meaningful for every listing.
pub proof fn lemma_entry_le_total(a: EntryModel, b: EntryModel)
    ensures
        entry_le(a, b) || entry_le(b, a),
{
    lemma_lex_le_total(a.name, b.name);
}

/// The ordering policy is transitive.
pub proof fn lemma_entry_le_transitive(a: EntryModel, b: EntryModel, c: EntryModel)
    requires
        entry_le(a, b),
        entry_le(b, c),
    ensures
        entry_le(a, c),
{
    if a.directory == b.directory && b.directory == c.directory {
        lemma_lex_le_transitive(a.name, b.name, c.name);
    }
}

/// The refined ordering never disagrees with the ordering policy.
pub proof fn lemma_entry_le_full_implies_le(a: EntryModel, b: EntryModel)
    requires
        entry_le_full(a, b),
    ensures
        entry_le(a, b),
{
    if a.directory == b.directory && a.name == b.name {
        lemma_lex_le_total(a.name, a.name);
    }
}

/// The refined ordering policy is a total order over entry models.
pub proof fn lemma_entry_order_total_ordering()
    ensures
        total_ordering(entry_order()),
{
    let leq = entry_order();
    assert forall|a: EntryModel| #[trigger] leq(a, a) by {
        lemma_lex_le_total(a.name, a.name);
    }
    assert forall|a: EntryModel, b: EntryModel| #[trigger] leq(a, b) && #[trigger] leq(
        b,
        a,
    ) implies a == b by {
        if a.directory == b.directory {
            if a.name != b.name {
                lemma_lex_le_antisymmetric(a.name, b.name);
            }
            assert(a =~= b);
        }
    }
    assert forall|a: EntryModel, b: EntryModel, c: EntryModel|
        #[trigger] leq(a, b) && #[trigger] leq(b, c) implies leq(a, c) by {
        if a.directory == b.directory && b.directory == c.directory {
            if a.name != b.name && b.name != c.name {
                lemma_lex_le_transitive(a.name, b.name, c.name);
                if a.name == c.name {
                    lemma_lex_le_antisymmetric(a.name, b.name);
                }
            }
        }
    }
    assert forall|a: EntryModel, b: EntryModel| #[trigger] leq(a, b) || #[trigger] leq(b, a) by {
        if a.directory == b.directory && a.name != b.name {
            lemma_lex_le_total(a.name, b.name);
        }
    }
}

/// Compares two rows under the ordering policy.
pub(crate) fn entry_le_exec(a: &ListEntry, b: &ListEntry) -> (r: bool)
    ensures
        r == entry_le(a@, b@),
{
    if a.directory != b.directory {
        a.directory
    } else {
        lex_le_exec(a.name.as_str(), b.name.as_str())
    }
}

proof fn lemma_to_multiset_insert(s: Seq<EntryModel>, i: int, a: EntryModel)
    requires
        0 <= i <= s.len(),
    ensures
        s.insert(i, a).to_multiset() == s.to_multiset().insert(a),
{
    broadcast use group_to_multiset_ensures;
    broadcast use group_multiset_axioms;

    let t = s.insert(i, a);
    assert(t.remove(i) =~= s);
    assert(t[i] == a);
    assert(s.to_multiset() == t.to_multiset().remove(a));
    assert(t.contains(a));
    assert(t.to_multiset().count(a) > 0);
    assert(t.to_multiset() =~= s.to_multiset().insert(a));
}

fn find_insert_pos(v: &Vec<ListEntry>, i: usize) -> (k: usize)
    requires
        i < v@.len(),
        sorted_by(models(v@).take(i as int), entry_le_rel()),
    ensures
        k <= i,
        forall|m: int| k <= m < i ==> !entry_le(models(v@)[m], models(v@)[i as int]),
        k > 0 ==> entry_le(models(v@)[k - 1], models(v@)[i as int]),
{
    let mut k = i;
    while k > 0
        invariant
            k <= i < v@.len(),
            forall|m: int| k <= m < i ==> !entry_le(models(v@)[m], models(v@)[i as int]),
        decreases k,
    {
        if entry_le_exec(&v[k - 1], &v[i]) {
            return k;
        }
        k -= 1;
    }
    0
}

/// Sorts a listing under the ordering policy: directories first, names
/// ascending within each category; no row is lost, duplicated or altered.
pub fn sort_entries(v: &mut Vec<ListEntry>)
    ensures
        sorted_by(models(final(v)@), entry_le_rel()),
        models(final(v)@).to_multiset() == models(old(v)@).to_multiset(),
        final(v)@.len() == old(v)@.len(),
{
    broadcast use group_to_multiset_ensures;
    broadcast use group_multiset_axioms;

    if v.len() <= 1 {
        return;
    }
    let ghost orig = models(old(v)@);
    let mut i: usize = 1;
    while i < v.len()
        invariant
            1 <= i <= v@.len(),
            v@.len() == orig.len(),
            sorted_by(models(v@).take(i as int), entry_le_rel()),
            models(v@).to_multiset() == orig.to_multiset(),
        decreases v@.len() - i,
    {
        let ghost pre = models(v@);
        let ghost em = pre[i as int];
        let k = find_insert_pos(v, i);
        let e = v.remove(i);
        let ghost mid = models(v@);
        proof {
            assert(mid =~= pre.remove(i as int));
            assert(e@ == em);
        }
        v.insert(k, e);
        let ghost post = models(v@);
        proof {
            broadcast use group_to_multiset_ensures;
            broadcast use group_multiset_axioms;

            assert(post =~= mid.insert(k as int, em));
            let rel = entry_le_rel();
            // every row of the old prefix below the insertion point sorts
            // no later than the inserted row
            assert forall|m: int| 0 <= m < k implies entry_le(pre[m], em) by {
                if m < k - 1 {
                    assert(rel(pre.take(i as int)[m], pre.take(i as int)[k - 1]));
                    lemma_entry_le_transitive(pre[m], pre[k - 1], em);
                }
            }
            // the inserted row sorts no later than the displaced rows
            assert forall|m: int| k <= m < i implies entry_le(em, pre[m]) by {
                lemma_entry_le_total(pre[m], em);
            }
            assert forall|p: int, q: int| 0 <= p < q < i + 1 implies #[trigger] rel(
                post.take(i + 1)[p],
                post.take(i + 1)[q],
            ) by {
                if q < k as int {
                    assert(rel(pre.take(i as int)[p], pre.take(i as int)[q]));
                    assert(rel(pre[p], pre[q]));
                } else if q == k as int {
                    assert(post[q] == em);
                    assert(rel(pre[p], em));
                } else {
                    assert(post[q] == pre[q - 1]);
                    if p < k as int {
                        assert(post[p] == pre[p]);
                        if p < q - 1 {
                            assert(rel(pre.take(i as int)[p], pre.take(i as int)[q - 1]));
                        }
                        assert(rel(pre[p], pre[q - 1]));
                    } else if p == k as int {
                        assert(post[p] == em);
                        assert(rel(em, pre[q - 1]));
                    } else {
                        assert(post[p] == pre[p - 1]);
                        assert(rel(pre.take(i as int)[p - 1], pre.take(i as int)[q - 1]));
                        assert(rel(pre[p - 1], pre[q - 1]));
                    }
                }
            }
            assert(sorted_by(post.take(i + 1), rel));
            // the multiset of rows is unchanged by remove plus insert
            lemma_to_multiset_insert(mid, k as int, em);
            assert(pre.remove(i as int).to_multiset() == pre.to_multiset().remove(em));
            assert(mid.to_multiset() == pre.to_multiset().remove(em));
            assert(pre.contains(em));
            assert(pre.to_multiset().count(em) > 0);
            assert(post.to_multiset() =~= pre.to_multiset());
        }
        i += 1;
    }
    proof {
        assert(models(v@).take(i as int) =~= models(v@));
    }
}

/// In a listing sorted under the ordering policy, every directory (the parent
/// row included) precedes every file, and within each category the names
/// ascend lexicographically.
pub proof fn lemma_sorted_listing_shape(l: Seq<EntryModel>)
    requires
        sorted_by(l, entry_le_rel()),
    ensures
        forall|i: int, j: int|
            0 <= i < j < l.len() && (#[trigger] l[j]).directory ==> (#[trigger] l[i]).directory,
        forall|i: int, j: int|
            0 <= i < j < l.len() && (#[trigger] l[i]).directory == (#[trigger] l[j]).directory
                ==> lex_le(l[i].name, l[j].name),
{
    let rel = entry_le_rel();
    assert forall|i: int, j: int|
        0 <= i < j < l.len() && (#[trigger] l[j]).directory implies (#[trigger] l[i]).directory by {
        assert(rel(l[i], l[j]));
    }
    assert forall|i: int, j: int|
        0 <= i < j < l.len() && (#[trigger] l[i]).directory == (#[trigger] l[j]).directory implies lex_le(
        l[i].name,
        l[j].name,
    ) by {
        assert(rel(l[i], l[j]));
    }
}

/// When a sorted listing holds the parent row, every row placed before it is
/// a directory whose name sorts before `".."`: the parent row is the first
/// directory-sorted entry unless such a directory name precedes it.
pub proof fn lemma_parent_first(l: Seq<EntryModel>, k: int)
    requires
        sorted_by(l, entry_le_rel()),
        0 <= k < l.len(),
        l[k].directory,
        l[k].name == ".."@,
    ensures
        forall|j: int|
            0 <= j < k ==> (#[trigger] l[j]).directory && lex_le(l[j].name, ".."@),
{
    let rel = entry_le_rel();
    assert forall|j: int| 0 <= j < k implies (#[trigger] l[j]).directory && lex_le(
        l[j].name,
        ".."@,
    ) by {
        assert(rel(l[j], l[k]));
    }
}

/// Two listings sorted under the ordering policy that hold the same rows are
/// identical once names are unique: the sorted listing, and hence the page
/// rendered from an unchanged filesystem state, is reproducible.
pub proof fn lemma_sorted_unique_names(x: Seq<EntryModel>, y: Seq<EntryModel>)
    requires
        sorted_by(x, entry_le_rel()),
        sorted_by(y, entry_le_rel()),
        unique_names(x),
        x.to_multiset() == y.to_multiset(),
    ensures
        x == y,
    decreases x.len(),
{
    broadcast use group_to_multiset_ensures;
    broadcast use group_multiset_axioms;

    let rel = entry_le_rel();
    if x.len() == 0 {
        assert(y.len() == y.to_multiset().len());
        assert(y.len() == 0);
        assert(x =~= y);
    } else {
        assert(x.len() == x.to_multiset().len());
        assert(y.len() == y.to_multiset().len());
        assert(y.len() == x.len());
        assert(y.contains(y[0]));
        assert(y.to_multiset().count(y[0]) > 0);
        assert(x.contains(y[0]));
        let i = choose|i: int| 0 <= i < x.len() && x[i] == y[0];
        assert(x.contains(x[0]));
        assert(x.to_multiset().count(x[0]) > 0);
        assert(y.contains(x[0]));
        let j = choose|j: int| 0 <= j < y.len() && y[j] == x[0];
        if i > 0 {
            assert(rel(x[0], x[i]));
        } else {
            lemma_entry_le_total(x[0], y[0]);
        }
        if j > 0 {
            assert(rel(y[0], y[j]));
        } else {
            lemma_entry_le_total(y[0], x[0]);
        }
        assert(entry_le(x[0], y[0]));
        assert(entry_le(y[0], x[0]));
        assert(x[0].directory == y[0].directory);
        lemma_lex_le_antisymmetric(x[0].name, y[0].name);
        assert(x[0].name == x[i].name);
        assert(i == 0);
        assert(x[0] == y[0]);
        assert(x.remove(0) =~= x.drop_first());
        assert(y.remove(0) =~= y.drop_first());
        assert(x.remove(0).to_multiset() == x.to_multiset().remove(x[0]));
        assert(y.remove(0).to_multiset() == y.to_multiset().remove(y[0]));
        assert(x.drop_first().to_multiset() == y.drop_first().to_multiset());
        assert forall|p: int, q: int|
            0 <= p < q < x.drop_first().len() implies #[trigger] rel(
            x.drop_first()[p],
            x.drop_first()[q],
        ) by {
            assert(rel(x[p + 1], x[q + 1]));
        }
        assert forall|p: int, q: int|
            0 <= p < q < y.drop_first().len() implies #[trigger] rel(
            y.drop_first()[p],
            y.drop_first()[q],
        ) by {
            assert(rel(y[p + 1], y[q + 1]));
        }
        assert forall|p: int, q: int|
            0 <= p < q < x.drop_first().len() implies #[trigger] x.drop_first()[p].name
                != #[trigger] x.drop_first()[q].name by {
            assert(x[p + 1].name != x[q + 1].name);
        }
        lemma_sorted_unique_names(x.drop_first(), y.drop_first());
        assert forall|m: int| 0 <= m < x.len() implies x[m] == y[m] by {
            if m > 0 {
                assert(x[m] == x.drop_first()[m - 1]);
                assert(y[m] == y.drop_first()[m - 1]);
            }
        }
        assert(x =~= y);
    }
}

} // verus!
