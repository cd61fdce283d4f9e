//! The grouper: partitions the filtered entries into per-author groups. The
//! result is the grouped mapping the renderer consumes — author keys in
//! strictly ascending lexicographic order, each group holding that author's
//! entries in input order.

use vstd::prelude::*;
use vstd::seq_lib::lemma_multiset_commutative;

use crate::data::{Entry, EntryView};
use crate::text::{lemma_lex_irreflexive, lemma_lex_transitive, lemma_lex_trichotomy, lex_lt, str_lt};

verus! {

/// One author's group: the display name and that author's entries, in the
/// order they were encountered.
#[derive(Debug, Clone, PartialEq, Eq)]
pub struct Group {
    pub author: String,
    pub entries: Vec<Entry>,
}

/// Ghost counterpart of [`Group`].
pub struct GroupView {
    pub author: Seq<char>,
    pub entries: Seq<EntryView>,
}

impl View for Group {
    type V = GroupView;

    open spec fn view(&self) -> GroupView {
        GroupView { author: self.author@, entries: self.entries.deep_view() }
    }
}

impl DeepView for Group {
    type V = GroupView;

    open spec fn deep_view(&self) -> GroupView {
        self@
    }
}

/// The predicate an entry meets exactly when its author is `a`.
pub open spec fn by_author(a: Seq<char>) -> spec_fn(EntryView) -> bool {
    |e: EntryView| e.author == a
}

/// Some group carries author `a`.
pub open spec fn has_group_for(groups: Seq<GroupView>, a: Seq<char>) -> bool {
    exists|i: int| 0 <= i < groups.len() && (#[trigger] groups[i]).author == a
}

/// Well-formedness of a grouped mapping: author keys strictly ascending
/// (hence unique) and no group empty — what an ordered map with non-empty
/// values guarantees by construction.
pub open spec fn grouped_wf(groups: Seq<GroupView>) -> bool {
    &&& forall|i: int, j: int|
        0 <= i < j < groups.len() ==> lex_lt(
            (#[trigger] groups[i]).author,
            (#[trigger] groups[j]).author,
        )
    &&& forall|i: int| 0 <= i < groups.len() ==> (#[trigger] groups[i]).entries.len() > 0
}

/// `groups` is the grouping of `entries`: well formed, each group holds
/// exactly the entries of its author in input order, and every input entry
/// has a group for its author.
pub open spec fn is_grouping_of(groups: Seq<GroupView>, entries: Seq<EntryView>) -> bool {
    &&& grouped_wf(groups)
    &&& forall|i: int|
        0 <= i < groups.len() ==> (#[trigger] groups[i]).entries == entries.filter(
            by_author(groups[i].author),
        )
    &&& forall|k: int|
        0 <= k < entries.len() ==> has_group_for(groups, (#[trigger] entries[k]).author)
}

/// Distinct positions of a well-formed grouping carry distinct authors.
proof fn lemma_wf_authors_unique(groups: Seq<GroupView>, i: int, j: int)
    requires
        grouped_wf(groups),
        0 <= i < groups.len(),
        0 <= j < groups.len(),
        i != j,
    ensures
        groups[i].author != groups[j].author,
{
    if i < j {
        lemma_lex_irreflexive(groups[i].author);
    } else {
        lemma_lex_irreflexive(groups[j].author);
    }
}

/// Finds the slot of `author` in a well-formed grouping: either the index
/// of its group, or the insertion point that keeps the keys ascending.
fn find_slot(groups: &Vec<Group>, author: &String) -> (r: (bool, usize))
    requires
        grouped_wf(groups.deep_view()),
    ensures
        r.0 ==> r.1 < groups.deep_view().len() && groups.deep_view()[r.1 as int].author
            == author@,
        !r.0 ==> r.1 <= groups.deep_view().len() && (forall|q: int|
            0 <= q < r.1 ==> lex_lt(groups.deep_view()[q].author, author@)) && (forall|q: int|
            r.1 <= q < groups.deep_view().len() ==> lex_lt(
                author@,
                groups.deep_view()[q].author,
            )),
{
    let ghost gs = groups.deep_view();
    let n = groups.len();
    let mut idx: usize = 0;
    while idx < n
        invariant
            idx <= n,
            n == gs.len(),
            gs == groups.deep_view(),
            grouped_wf(gs),
            forall|q: int| 0 <= q < idx ==> lex_lt(gs[q].author, author@),
        decreases n - idx,
    {
        let g = &groups[idx];
        proof {
            assert(gs[idx as int] == groups@[idx as int]@);
        }
        if g.author.eq(author) {
            return (true, idx);
        }
        if str_lt(g.author.as_str(), author.as_str()) {
            idx = idx + 1;
        } else {
            proof {
                lemma_lex_trichotomy(gs[idx as int].author, author@);
                assert(lex_lt(author@, gs[idx as int].author));
                assert forall|q: int| idx <= q < n implies lex_lt(author@, gs[q].author) by {
                    if q > idx {
                        lemma_lex_transitive(author@, gs[idx as int].author, gs[q].author);
                    }
                }
            }
            return (false, idx);
        }
    }
    (false, n)
}

/// Partitions the entries by author. Returns the grouped mapping: one group
/// per distinct author, keys strictly ascending, each group's entries in
/// input order; and no entry is duplicated or dropped — the groups' contents
/// together are exactly the input, as a multiset.
pub fn group_by_author(input: Vec<Entry>) -> (r: Vec<Group>)
    ensures
        is_grouping_of(r.deep_view(), input.deep_view()),
        r.deep_view().map_values(|g: GroupView| g.entries).flatten().to_multiset()
            == input.deep_view().to_multiset(),
{
    let ghost all = input.deep_view();
    let mut r: Vec<Group> = Vec::new();
    let mut idx: usize = 0;
    proof {
        assert(all.take(0) =~= Seq::<EntryView>::empty());
        lemma_grouping_empty(r.deep_view(), all.take(0));
    }
    while idx < input.len()
        invariant
            idx <= input.len(),
            all == input.deep_view(),
            is_grouping_of(r.deep_view(), all.take(idx as int)),
        decreases input.len() - idx,
    {
        let e = input[idx].duplicate();
        proof {
            assert(e@ == all[idx as int]);
        }
        let ghost prefix = all.take(idx as int);
        proof {
            assert(all.take(idx + 1) =~= prefix.push(e@));
        }
        let (found, slot) = find_slot(&r, &e.author);
        let ghost old_groups = r.deep_view();
        if found {
            let mut g = r.remove(slot);
            proof {
                assert(g@ == old_groups[slot as int]);
            }
            let ghost g_entries0 = g.entries.deep_view();
            g.entries.push(e);
            proof {
                assert(g.entries.deep_view() =~= g_entries0.push(all[idx as int]));
            }
            r.insert(slot, g);
            proof {
                let updated = old_groups.update(
                    slot as int,
                    GroupView {
                        author: old_groups[slot as int].author,
                        entries: old_groups[slot as int].entries.push(all[idx as int]),
                    },
                );
                assert forall|m: int| 0 <= m < r.deep_view().len() implies r.deep_view()[m]
                    == updated[m] by {
                    assert(r.deep_view()[m] == r@[m]@);
                }
                assert(r.deep_view() =~= updated);
                lemma_group_append(old_groups, prefix, all[idx as int], slot as int, updated);
            }
        } else {
            let key = e.author.clone();
            let mut members: Vec<Entry> = Vec::new();
            members.push(e);
            let g = Group { author: key, entries: members };
            proof {
                assert(g@.entries =~= seq![all[idx as int]]);
            }
            r.insert(slot, g);
            proof {
                let updated = old_groups.insert(
                    slot as int,
                    GroupView { author: all[idx as int].author, entries: seq![all[idx as int]] },
                );
                old_groups.insert_ensures(slot as int, g@);
                assert forall|m: int| 0 <= m < r.deep_view().len() implies r.deep_view()[m]
                    == updated[m] by {
                    assert(r.deep_view()[m] == r@[m]@);
                }
                assert(r.deep_view() =~= updated);
                lemma_group_insert(old_groups, prefix, all[idx as int], slot as int, updated);
            }
        }
        idx = idx + 1;
    }
    proof {
        assert(all.take(all.len() as int) =~= all);
        lemma_grouping_preserves_entries(r.deep_view(), all);
    }
    r
}

/// An empty grouping is the grouping of no entries.
proof fn lemma_grouping_empty(groups: Seq<GroupView>, entries: Seq<EntryView>)
    requires
        groups.len() == 0,
        entries.len() == 0,
    ensures
        is_grouping_of(groups, entries),
{
}

/// Appending an entry to the group that already carries its author keeps
/// the grouping exact.
proof fn lemma_group_append(
    groups: Seq<GroupView>,
    entries: Seq<EntryView>,
    e: EntryView,
    slot: int,
    updated: Seq<GroupView>,
)
    requires
        is_grouping_of(groups, entries),
        0 <= slot < groups.len(),
        groups[slot].author == e.author,
        updated == groups.update(
            slot,
            GroupView { author: groups[slot].author, entries: groups[slot].entries.push(e) },
        ),
    ensures
        is_grouping_of(updated, entries.push(e)),
{
    let entries1 = entries.push(e);
    assert forall|i: int|
        0 <= i < updated.len() implies (#[trigger] updated[i]).entries == entries1.filter(
        by_author(updated[i].author),
    ) by {
        entries.lemma_filter_push(e, by_author(updated[i].author));
        if i != slot {
            assert(updated[i] == groups[i]);
            lemma_wf_authors_unique(groups, i, slot);
            assert(!(by_author(updated[i].author)(e)));
        } else {
            assert(by_author(updated[i].author)(e));
        }
    }
    assert forall|i: int, j: int|
        0 <= i < j < updated.len() implies lex_lt(
        (#[trigger] updated[i]).author,
        (#[trigger] updated[j]).author,
    ) by {
        assert(updated[i].author == groups[i].author);
        assert(updated[j].author == groups[j].author);
    }
    assert forall|i: int| 0 <= i < updated.len() implies (#[trigger] updated[i]).entries.len()
        > 0 by {
        if i != slot {
            assert(updated[i] == groups[i]);
        }
    }
    assert forall|k: int|
        0 <= k < entries1.len() implies has_group_for(updated, (#[trigger] entries1[k]).author) by {
        if k < entries.len() {
            assert(entries1[k] == entries[k]);
            assert(has_group_for(groups, entries[k].author));
            let i = choose|i: int|
                0 <= i < groups.len() && (#[trigger] groups[i]).author == entries[k].author;
            if i != slot {
                assert(updated[i] == groups[i]);
            }
            assert(updated[i].author == entries1[k].author);
        } else {
            assert(entries1[k] == e);
            assert(updated[slot].author == e.author);
        }
    }
}

/// Inserting a fresh singleton group for an unseen author, at the slot that
/// keeps the keys ascending, keeps the grouping exact.
proof fn lemma_group_insert(
    groups: Seq<GroupView>,
    entries: Seq<EntryView>,
    e: EntryView,
    slot: int,
    updated: Seq<GroupView>,
)
    requires
        is_grouping_of(groups, entries),
        0 <= slot <= groups.len(),
        forall|q: int| 0 <= q < slot ==> lex_lt((#[trigger] groups[q]).author, e.author),
        forall|q: int| slot <= q < groups.len() ==> lex_lt(e.author, (#[trigger] groups[q]).author),
        updated =~= groups.insert(slot, GroupView { author: e.author, entries: seq![e] }),
    ensures
        is_grouping_of(updated, entries.push(e)),
{
    let entries1 = entries.push(e);
    let fresh = GroupView { author: e.author, entries: seq![e] };
    groups.insert_ensures(slot, fresh);
    // No existing group carries this author.
    assert forall|q: int| 0 <= q < groups.len() implies (#[trigger] groups[q]).author
        != e.author by {
        if q < slot {
            lemma_lex_irreflexive(groups[q].author);
        } else {
            lemma_lex_irreflexive(e.author);
        }
    }
    // Hence no existing entry carries it either, and its filter is empty.
    assert(entries.filter(by_author(e.author)) =~= Seq::<EntryView>::empty()) by {
        let filtered = entries.filter(by_author(e.author));
        if filtered.len() > 0 {
            entries.lemma_filter_pred(by_author(e.author), 0);
            entries.lemma_filter_contains_rev(by_author(e.author), filtered[0]);
            let k = choose|k: int| 0 <= k < entries.len() && entries[k] == filtered[0];
            assert(has_group_for(groups, entries[k].author));
            let i = choose|i: int|
                0 <= i < groups.len() && (#[trigger] groups[i]).author == entries[k].author;
            assert(false);
        }
    }
    assert forall|i: int|
        0 <= i < updated.len() implies (#[trigger] updated[i]).entries == entries1.filter(
        by_author(updated[i].author),
    ) by {
        entries.lemma_filter_push(e, by_author(updated[i].author));
        if i < slot {
            assert(updated[i] == groups[i]);
            lemma_lex_irreflexive(e.author);
            assert(!(by_author(updated[i].author)(e)));
        } else if i == slot {
            assert(updated[i] == fresh);
            assert(by_author(e.author)(e));
            assert(entries1.filter(by_author(e.author)) =~= seq![e]);
        } else {
            assert(updated[i] == groups[i - 1]);
            lemma_lex_irreflexive(e.author);
            assert(!(by_author(updated[i].author)(e)));
        }
    }
    assert forall|i: int, j: int|
        0 <= i < j < updated.len() implies lex_lt(
        (#[trigger] updated[i]).author,
        (#[trigger] updated[j]).author,
    ) by {
        if j < slot {
            assert(updated[i] == groups[i]);
            assert(updated[j] == groups[j]);
        } else if i < slot && j == slot {
            assert(updated[i] == groups[i]);
        } else if i < slot && j > slot {
            assert(updated[i] == groups[i]);
            assert(updated[j] == groups[j - 1]);
        } else if i == slot {
            assert(updated[j] == groups[j - 1]);
        } else {
            assert(updated[i] == groups[i - 1]);
            assert(updated[j] == groups[j - 1]);
        }
    }
    assert forall|i: int| 0 <= i < updated.len() implies (#[trigger] updated[i]).entries.len()
        > 0 by {
        if i < slot {
            assert(updated[i] == groups[i]);
        } else if i > slot {
            assert(updated[i] == groups[i - 1]);
        }
    }
    assert forall|k: int|
        0 <= k < entries1.len() implies has_group_for(updated, (#[trigger] entries1[k]).author) by {
        if k < entries.len() {
            assert(entries1[k] == entries[k]);
            assert(has_group_for(groups, entries[k].author));
            let i = choose|i: int|
                0 <= i < groups.len() && (#[trigger] groups[i]).author == entries[k].author;
            if i < slot {
                assert(updated[i].author == entries1[k].author);
            } else {
                assert(updated[i + 1].author == entries1[k].author);
            }
        } else {
            assert(entries1[k] == e);
            assert(updated[slot].author == e.author);
        }
    }
}

/// No entry is duplicated or dropped by grouping: the groups' contents,
/// taken together, are exactly the input entries as a multiset.
pub proof fn lemma_grouping_preserves_entries(groups: Seq<GroupView>, entries: Seq<EntryView>)
    requires
        is_grouping_of(groups, entries),
    ensures
        groups.map_values(|g: GroupView| g.entries).flatten().to_multiset()
            == entries.to_multiset(),
    decreases groups.len(),
{
    broadcast use vstd::seq_lib::group_to_multiset_ensures;

    let contents = |g: GroupView| g.entries;
    if groups.len() == 0 {
        assert(entries.len() == 0) by {
            if entries.len() > 0 {
                assert(has_group_for(groups, entries[0].author));
                let i = choose|i: int|
                    0 <= i < groups.len() && (#[trigger] groups[i]).author == entries[0].author;
                assert(false);
            }
        }
        assert(groups.map_values(contents) =~= Seq::<Seq<EntryView>>::empty());
        assert(groups.map_values(contents).flatten() =~= Seq::<EntryView>::empty());
        assert(groups.map_values(contents).flatten().to_multiset() =~= entries.to_multiset());
    } else {
        let last = groups.len() - 1;
        let a = groups[last].author;
        let p = by_author(a);
        let np = |x: EntryView| !p(x);
        let rest = entries.filter(np);
        let front = groups.drop_last();
        // The front is the grouping of the other authors' entries.
        assert forall|i: int, j: int|
            0 <= i < j < front.len() implies lex_lt(
            (#[trigger] front[i]).author,
            (#[trigger] front[j]).author,
        ) by {
            assert(front[i] == groups[i]);
            assert(front[j] == groups[j]);
        }
        assert forall|i: int| 0 <= i < front.len() implies (#[trigger] front[i]).entries.len()
            > 0 by {
            assert(front[i] == groups[i]);
        }
        assert forall|i: int|
            0 <= i < front.len() implies (#[trigger] front[i]).entries == rest.filter(
            by_author(front[i].author),
        ) by {
            assert(front[i] == groups[i]);
            lemma_wf_authors_unique(groups, i, last);
            lemma_filter_restrict(entries, np, by_author(front[i].author));
        }
        assert forall|k: int|
            0 <= k < rest.len() implies has_group_for(front, (#[trigger] rest[k]).author) by {
            rest.lemma_index_contains(k);
            entries.lemma_filter_contains_rev(np, rest[k]);
            let m = choose|m: int| 0 <= m < entries.len() && entries[m] == rest[k];
            assert(has_group_for(groups, entries[m].author));
            let i = choose|i: int|
                0 <= i < groups.len() && (#[trigger] groups[i]).author == entries[m].author;
            assert(i != last);
            assert(front[i] == groups[i]);
        }
        assert(is_grouping_of(front, rest));
        lemma_grouping_preserves_entries(front, rest);
        // Split the input by the last author and recombine.
        lemma_filter_partition(entries, p, np);
        assert(groups[last].entries == entries.filter(p));
        assert(groups.map_values(contents) =~= front.map_values(contents).push(
            groups[last].entries,
        ));
        front.map_values(contents).lemma_flatten_push(groups[last].entries);
        lemma_multiset_commutative(front.map_values(contents).flatten(), groups[last].entries);
        assert(groups.map_values(contents).flatten().to_multiset() =~= entries.to_multiset());
    }
}

/// Filtering with a weaker predicate first does not change a filter:
/// everything `q` admits, `p` admits already.
proof fn lemma_filter_restrict<A>(s: Seq<A>, p: spec_fn(A) -> bool, q: spec_fn(A) -> bool)
    requires
        forall|x: A| #[trigger] q(x) ==> p(x),
    ensures
        s.filter(p).filter(q) == s.filter(q),
    decreases s.len(),
{
    reveal(Seq::filter);
    if s.len() > 0 {
        let s0 = s.drop_last();
        let x = s.last();
        lemma_filter_restrict(s0, p, q);
        if p(x) {
            s0.filter(p).lemma_filter_push(x, q);
            assert(s0.filter(p).push(x) =~= s.filter(p));
        }
    }
}

/// A predicate and its negation split a sequence's multiset exactly.
proof fn lemma_filter_partition<A>(s: Seq<A>, p: spec_fn(A) -> bool, q: spec_fn(A) -> bool)
    requires
        forall|x: A| #[trigger] q(x) == !p(x),
    ensures
        s.filter(p).to_multiset().add(s.filter(q).to_multiset()) == s.to_multiset(),
    decreases s.len(),
{
    broadcast use vstd::seq_lib::group_to_multiset_ensures;
    broadcast use vstd::multiset::group_multiset_axioms;

    reveal(Seq::filter);
    if s.len() == 0 {
        assert(s.filter(p).to_multiset().add(s.filter(q).to_multiset()) =~= s.to_multiset());
    } else {
        let s0 = s.drop_last();
        let x = s.last();
        lemma_filter_partition(s0, p, q);
        assert(s =~= s0.push(x));
        assert(s.to_multiset() == s0.to_multiset().insert(x));
        if p(x) {
            assert(s.filter(p) == s0.filter(p).push(x));
            assert(s.filter(q) == s0.filter(q));
            assert(s.filter(p).to_multiset() == s0.filter(p).to_multiset().insert(x));
            assert(s.filter(p).to_multiset().add(s.filter(q).to_multiset()) =~= s.to_multiset());
        } else {
            assert(s.filter(q) == s0.filter(q).push(x));
            assert(s.filter(p) == s0.filter(p));
            assert(s.filter(q).to_multiset() == s0.filter(q).to_multiset().insert(x));
            assert(s.filter(p).to_multiset().add(s.filter(q).to_multiset()) =~= s.to_multiset());
        }
    }
}

} // verus!
