//! Facts about the store that hold across its operations.
use vstd::prelude::*;
use crate::names::{name_lt, lemma_name_lt_irreflexive, lemma_name_lt_transitive};
use crate::requirement::canonical_req;
use crate::service::{Entry, has_name, lemma_sorted_names_distinct, record_set, sorted_by_name, without_name};
use crate::store::DesiredState;

verus! {

/// Two lists sorted by name that hold the same entries are the same list:
/// the order of a listing does not depend on the order of insertion.
pub proof fn law_sorted_listing_is_unique(a: Seq<Entry>, b: Seq<Entry>)
    requires
        sorted_by_name(a),
        sorted_by_name(b),
        a.to_set() == b.to_set(),
    ensures
        a == b,
    decreases a.len(),
{
    if a.len() == 0 {
        if b.len() > 0 {
            assert(b.to_set().contains(b[0]));
        }
        assert(a =~= b);
    } else {
        assert(a.to_set().contains(a[0]));
        let k = choose|k: int| 0 <= k < b.len() && b[k] == a[0];
        if k > 0 {
            assert(b.to_set().contains(b[0]));
            let m = choose|m: int| 0 <= m < a.len() && a[m] == b[0];
            assert(name_lt(b[0].0, b[k].0));
            if m == 0 {
                lemma_name_lt_irreflexive(b[0].0);
            } else {
                assert(name_lt(a[0].0, a[m].0));
                lemma_name_lt_transitive(b[0].0, a[0].0, b[0].0);
                lemma_name_lt_irreflexive(b[0].0);
            }
        }
        let a1 = a.drop_first();
        let b1 = b.drop_first();
        assert forall|x: Entry| a1.to_set().contains(x) <==> b1.to_set().contains(x) by {
            if a1.contains(x) {
                let i = choose|i: int| 0 <= i < a1.len() && a1[i] == x;
                lemma_sorted_names_distinct(a, 0, i + 1);
                assert(a.contains(x));
                assert(b.to_set().contains(x));
                let j = choose|j: int| 0 <= j < b.len() && b[j] == x;
                assert(j != 0);
                assert(b1[j - 1] == x);
            }
            if b1.contains(x) {
                let i = choose|i: int| 0 <= i < b1.len() && b1[i] == x;
                lemma_sorted_names_distinct(b, 0, i + 1);
                assert(b.contains(x));
                assert(a.to_set().contains(x));
                let j = choose|j: int| 0 <= j < a.len() && a[j] == x;
                assert(j != 0);
                assert(a1[j - 1] == x);
            }
        }
        assert(a1.to_set() =~= b1.to_set());
        law_sorted_listing_is_unique(a1, b1);
        assert(a =~= seq![a[0]] + a1);
        assert(b =~= seq![b[0]] + b1);
    }
}

/// Reading back a sorted list of services that was written out gives the
/// same entries.
pub proof fn law_persist_then_reload(s: Seq<Entry>)
    requires
        sorted_by_name(s),
    ensures
        record_set(s) == s.to_set(),
    decreases s.len(),
{
    if s.len() > 0 {
        let init = s.drop_last();
        assert(sorted_by_name(init));
        law_persist_then_reload(init);
        assert forall|x: Entry| init.to_set().contains(x) implies x.0 != s.last().0 by {
            let i = choose|i: int| 0 <= i < init.len() && init[i] == x;
            lemma_sorted_names_distinct(s, i, s.len() - 1);
        }
        assert forall|x: Entry| #[trigger] s.to_set().contains(x) <==> without_name(init.to_set(), s.last().0).insert(
            s.last(),
        ).contains(x) by {
            if s.contains(x) && x != s.last() {
                let i = choose|i: int| 0 <= i < s.len() && s[i] == x;
                assert(init[i] == x);
            }
            if init.contains(x) {
                let i = choose|i: int| 0 <= i < init.len() && init[i] == x;
                assert(s[i] == x);
            }
        }
        assert(s.to_set() =~= record_set(s));
    }
}

/// After a service was set and the change committed, the listing holds
/// exactly one entry of its name, with the canonical form of the requirement.
pub proof fn law_set_then_list(before: DesiredState, after: DesiredState, name: Seq<char>, expr: Seq<char>)
    requires
        before.wf(),
        after.wf(),
        canonical_req(expr) is Some,
        after.entries().to_set() == without_name(before.entries().to_set(), name).insert(
            (name, canonical_req(expr).unwrap()),
        ),
    ensures
        exists|i: int|
            0 <= i < after.entries().len() && after.entries()[i] == (name, canonical_req(expr).unwrap()),
        forall|i: int, j: int|
            0 <= i < after.entries().len() && 0 <= j < after.entries().len() && after.entries()[i].0 == name
                && after.entries()[j].0 == name ==> i == j,
{
    after.lemma_sorted();
    let l = after.entries();
    assert(l.to_set().contains((name, canonical_req(expr).unwrap())));
    assert forall|i: int, j: int|
        0 <= i < l.len() && 0 <= j < l.len() && l[i].0 == name && l[j].0 == name implies i == j by {
        if i != j {
            lemma_sorted_names_distinct(l, i, j);
        }
    }
}

/// After a present service was removed and the change committed, no entry of
/// its name is left and every other entry is kept.
pub proof fn law_remove_then_list(before: DesiredState, after: DesiredState, name: Seq<char>)
    requires
        before.wf(),
        after.wf(),
        has_name(before.entries(), name),
        after.entries().to_set() == without_name(before.entries().to_set(), name),
    ensures
        !has_name(after.entries(), name),
        after.entries().len() == before.entries().len() - 1,
        forall|e: Entry| e.0 != name ==> (after.entries().contains(e) <==> before.entries().contains(e)),
{
    before.lemma_sorted();
    after.lemma_sorted();
    let a = after.entries();
    let b = before.entries();
    if has_name(a, name) {
        let i = choose|i: int| 0 <= i < a.len() && (#[trigger] a[i]).0 == name;
        assert(a.to_set().contains(a[i]));
    }
    let k = choose|k: int| 0 <= k < b.len() && (#[trigger] b[k]).0 == name;
    let rest = b.remove(k);
    assert(sorted_by_name(rest)) by {
        assert forall|i: int, j: int| 0 <= i < j < rest.len() implies name_lt(#[trigger] rest[i].0, #[trigger] rest[j].0) by {
            if j < k {
                assert(name_lt(b[i].0, b[j].0));
            } else if i < k {
                assert(name_lt(b[i].0, b[j + 1].0));
            } else {
                assert(name_lt(b[i + 1].0, b[j + 1].0));
            }
        }
    }
    assert forall|x: Entry| rest.to_set().contains(x) <==> a.to_set().contains(x) by {
        if rest.contains(x) {
            let i = choose|i: int| 0 <= i < rest.len() && rest[i] == x;
            if i < k {
                assert(b[i] == x);
                lemma_sorted_names_distinct(b, i, k);
            } else {
                assert(b[i + 1] == x);
                lemma_sorted_names_distinct(b, i + 1, k);
            }
        }
        if a.to_set().contains(x) {
            let i = choose|i: int| 0 <= i < b.len() && b[i] == x;
            assert(i != k);
            if i < k {
                assert(rest[i] == x);
            } else {
                assert(rest[i - 1] == x);
            }
        }
    }
    assert(rest.to_set() =~= a.to_set());
    law_sorted_listing_is_unique(rest, a);
    assert forall|e: Entry| e.0 != name implies (a.contains(e) <==> b.contains(e)) by {
        assert(a.contains(e) <==> a.to_set().contains(e));
        assert(b.contains(e) <==> b.to_set().contains(e));
    }
}

/// Reloading content that describes the state as it stands changes nothing,
/// so no event is emitted.
pub proof fn law_reload_of_same_content_is_silent(
    before: DesiredState,
    after: DesiredState,
    version: Seq<char>,
    entries: Set<Entry>,
)
    requires
        before.wf(),
        after.wf(),
        version == before.version_view(),
        entries == before.entries().to_set(),
        after.version_view() == version,
        after.entries().to_set() == entries,
    ensures
        after.version_view() == before.version_view() && after.entries() == before.entries(),
{
    before.lemma_sorted();
    after.lemma_sorted();
    law_sorted_listing_is_unique(after.entries(), before.entries());
}

} // verus!
