//! A service entry and the ordered, duplicate-free list that holds them.
use vstd::prelude::*;
use crate::names::{name_less, name_lt, lemma_name_lt_irreflexive, lemma_name_lt_total, lemma_name_lt_transitive};

verus! {

/// What a service is, mathematically: its name and its version requirement.
pub type Entry = (Seq<char>, Seq<char>);

/// A service: its unique name and the requirement on its version, in the
/// canonical text of a version requirement.
pub struct Service {
    pub name: String,
    pub version_req: String,
}

impl View for Service {
    type V = Entry;

    open spec fn view(&self) -> Entry {
        (self.name@, self.version_req@)
    }
}

/// The entries of a list of services.
pub open spec fn entries_of(v: Seq<Service>) -> Seq<Entry> {
    v.map_values(|s: Service| s@)
}

/// Names strictly increase along the list: it is sorted and no name repeats.
pub open spec fn sorted_by_name(s: Seq<Entry>) -> bool {
    forall|i: int, j: int| 0 <= i < j < s.len() ==> name_lt(#[trigger] s[i].0, #[trigger] s[j].0)
}

/// The list `s` with the entry of `name` taken out.
pub open spec fn without_name(s: Set<Entry>, name: Seq<char>) -> Set<Entry> {
    s.filter(|e: Entry| e.0 != name)
}

impl Service {
    pub fn new(name: String, version_req: String) -> (r: Service)
        ensures
            r.name@ == name@,
            r.version_req@ == version_req@,
    {
        Service { name, version_req }
    }

    /// A service of the given name that accepts every version.
    pub fn placeholder(name: &str) -> (r: Service)
        ensures
            r@ == (name@, seq!['*']),
    {
        let r = Service { name: name.to_string(), version_req: "*".to_string() };
        proof {
            reveal_strlit("*");
            assert(r.version_req@ =~= seq!['*']);
        }
        r
    }

    /// An independent copy of this service.
    pub fn duplicate(&self) -> (r: Service)
        ensures
            r@ == self@,
    {
        Service { name: self.name.clone(), version_req: self.version_req.clone() }
    }
}

/// An independent copy of a list of services.
pub fn duplicate_all(v: &Vec<Service>) -> (r: Vec<Service>)
    ensures
        entries_of(r@) == entries_of(v@),
{
    let mut r: Vec<Service> = Vec::new();
    let mut i: usize = 0;
    while i < v.len()
        invariant
            i <= v.len(),
            r.len() == i,
            forall|j: int| 0 <= j < i ==> #[trigger] r@[j]@ == v@[j]@,
        decreases v.len() - i,
    {
        r.push(v[i].duplicate());
        i = i + 1;
    }
    assert(entries_of(r@) =~= entries_of(v@));
    r
}

/// The first position whose name does not sort before `name`.
fn insertion_point(v: &Vec<Service>, name: &String) -> (p: usize)
    requires
        sorted_by_name(entries_of(v@)),
    ensures
        p <= v.len(),
        forall|i: int| 0 <= i < p ==> name_lt(#[trigger] v@[i].name@, name@),
        forall|i: int| p <= i < v.len() ==> !name_lt(#[trigger] v@[i].name@, name@),
{
    let mut p: usize = 0;
    while p < v.len()
        invariant
            p <= v.len(),
            sorted_by_name(entries_of(v@)),
            forall|i: int| 0 <= i < p ==> name_lt(#[trigger] v@[i].name@, name@),
        decreases v.len() - p,
    {
        if !name_less(v[p].name.as_str(), name.as_str()) {
            proof {
                assert forall|i: int| p <= i < v.len() implies !name_lt(#[trigger] v@[i].name@, name@) by {
                    if i > p && name_lt(v@[i].name@, name@) {
                        assert(name_lt(entries_of(v@)[p as int].0, entries_of(v@)[i].0));
                        lemma_name_lt_transitive(v@[p as int].name@, v@[i].name@, name@);
                    }
                }
            }
            return p;
        }
        p = p + 1;
    }
    p
}

/// Distinct positions of a sorted list hold distinct names.
pub proof fn lemma_sorted_names_distinct(s: Seq<Entry>, i: int, j: int)
    requires
        sorted_by_name(s),
        0 <= i < s.len(),
        0 <= j < s.len(),
        i != j,
    ensures
        s[i].0 != s[j].0,
{
    if i < j {
        assert(name_lt(s[i].0, s[j].0));
        lemma_name_lt_irreflexive(s[i].0);
    } else {
        assert(name_lt(s[j].0, s[i].0));
        lemma_name_lt_irreflexive(s[j].0);
    }
}

/// Inserts `s` into a sorted list, in place of the entry of the same name if
/// there is one.
pub fn upsert(v: &mut Vec<Service>, s: Service)
    requires
        sorted_by_name(entries_of(old(v)@)),
    ensures
        sorted_by_name(entries_of(final(v)@)),
        entries_of(final(v)@).to_set() == without_name(entries_of(old(v)@).to_set(), s.name@).insert(s@),
{
    let ghost old_e = entries_of(v@);
    let ghost e = s@;
    let p = insertion_point(v, &s.name);
    if p < v.len() && v[p].name == s.name {
        v.set(p, s);
        proof {
            let new_e = entries_of(v@);
            assert(new_e =~= old_e.update(p as int, e));
            assert forall|i: int, j: int| 0 <= i < j < new_e.len() implies name_lt(#[trigger] new_e[i].0, #[trigger] new_e[j].0) by {
                assert(name_lt(old_e[i].0, old_e[j].0));
            }
            let target = without_name(old_e.to_set(), e.0).insert(e);
            assert forall|x: Entry| new_e.to_set().contains(x) <==> target.contains(x) by {
                if new_e.contains(x) {
                    let k = choose|k: int| 0 <= k < new_e.len() && new_e[k] == x;
                    if k != p {
                        lemma_sorted_names_distinct(old_e, k, p as int);
                        assert(old_e.contains(x));
                    }
                }
                if target.contains(x) && x != e {
                    let k = choose|k: int| 0 <= k < old_e.len() && old_e[k] == x;
                    assert(k != p);
                    assert(new_e[k] == x);
                }
                if x == e {
                    assert(new_e[p as int] == e);
                }
            }
            assert(new_e.to_set() =~= target);
        }
    } else {
        proof {
            if p < v.len() {
                lemma_name_lt_total(v@[p as int].name@, e.0);
            }
        }
        v.insert(p, s);
        proof {
            let new_e = entries_of(v@);
            assert(new_e =~= old_e.insert(p as int, e));
            assert forall|j: int| p <= j < old_e.len() implies name_lt(e.0, #[trigger] old_e[j].0) by {
                assert(!name_lt(old_e[j].0, e.0));
                lemma_name_lt_total(old_e[j].0, e.0);
                if j > p {
                    assert(name_lt(old_e[p as int].0, old_e[j].0));
                    if old_e[j].0 == e.0 {
                        assert(name_lt(old_e[p as int].0, e.0));
                    }
                }
            }
            assert forall|i: int, j: int| 0 <= i < j < new_e.len() implies name_lt(#[trigger] new_e[i].0, #[trigger] new_e[j].0) by {
                if j < p {
                    assert(name_lt(old_e[i].0, old_e[j].0));
                } else if j == p {
                    assert(name_lt(old_e[i].0, e.0));
                } else if i == p {
                    assert(name_lt(e.0, old_e[j - 1].0));
                } else if i < p {
                    assert(name_lt(old_e[i].0, old_e[j - 1].0));
                } else {
                    assert(name_lt(old_e[i - 1].0, old_e[j - 1].0));
                }
            }
            let target = without_name(old_e.to_set(), e.0).insert(e);
            assert forall|x: Entry| new_e.to_set().contains(x) <==> target.contains(x) by {
                if new_e.contains(x) {
                    let k = choose|k: int| 0 <= k < new_e.len() && new_e[k] == x;
                    if k < p {
                        assert(old_e[k] == x);
                        lemma_name_lt_irreflexive(e.0);
                    } else if k > p {
                        assert(old_e[k - 1] == x);
                        lemma_name_lt_irreflexive(e.0);
                    }
                }
                if target.contains(x) && x != e {
                    let k = choose|k: int| 0 <= k < old_e.len() && old_e[k] == x;
                    if k < p {
                        assert(new_e[k] == x);
                    } else {
                        assert(new_e[k + 1] == x);
                    }
                }
                if x == e {
                    assert(new_e[p as int] == e);
                }
            }
            assert(new_e.to_set() =~= target);
        }
    }
}

/// Some entry of `s` carries `name`.
pub open spec fn has_name(s: Seq<Entry>, name: Seq<char>) -> bool {
    exists|i: int| 0 <= i < s.len() && (#[trigger] s[i]).0 == name
}

/// Takes the entry of `name` out of a sorted list; tells whether there was one.
pub fn remove_named(v: &mut Vec<Service>, name: &String) -> (existed: bool)
    requires
        sorted_by_name(entries_of(old(v)@)),
    ensures
        existed == has_name(entries_of(old(v)@), name@),
        sorted_by_name(entries_of(final(v)@)),
        entries_of(final(v)@).to_set() == without_name(entries_of(old(v)@).to_set(), name@),
        !existed ==> final(v)@ == old(v)@,
{
    let ghost old_e = entries_of(v@);
    let p = insertion_point(v, name);
    if p < v.len() && v[p].name == *name {
        v.remove(p);
        proof {
            let new_e = entries_of(v@);
            assert(new_e =~= old_e.remove(p as int));
            assert(old_e[p as int].0 == name@);
            assert forall|i: int, j: int| 0 <= i < j < new_e.len() implies name_lt(#[trigger] new_e[i].0, #[trigger] new_e[j].0) by {
                if j < p {
                    assert(name_lt(old_e[i].0, old_e[j].0));
                } else if i < p {
                    assert(name_lt(old_e[i].0, old_e[j + 1].0));
                } else {
                    assert(name_lt(old_e[i + 1].0, old_e[j + 1].0));
                }
            }
            let target = without_name(old_e.to_set(), name@);
            assert forall|x: Entry| new_e.to_set().contains(x) <==> target.contains(x) by {
                if new_e.contains(x) {
                    let k = choose|k: int| 0 <= k < new_e.len() && new_e[k] == x;
                    if k < p {
                        assert(old_e[k] == x);
                        lemma_sorted_names_distinct(old_e, k, p as int);
                    } else {
                        assert(old_e[k + 1] == x);
                        lemma_sorted_names_distinct(old_e, k + 1, p as int);
                    }
                }
                if target.contains(x) {
                    let k = choose|k: int| 0 <= k < old_e.len() && old_e[k] == x;
                    if k < p {
                        assert(new_e[k] == x);
                    } else {
                        assert(k != p);
                        assert(new_e[k - 1] == x);
                    }
                }
            }
            assert(new_e.to_set() =~= target);
        }
        true
    } else {
        proof {
            assert forall|i: int| 0 <= i < old_e.len() implies (#[trigger] old_e[i]).0 != name@ by {
                if i < p {
                    assert(name_lt(v@[i].name@, name@));
                    lemma_name_lt_irreflexive(name@);
                } else if i > p {
                    assert(!name_lt(v@[p as int].name@, name@));
                    assert(name_lt(old_e[p as int].0, old_e[i].0));
                }
            }
            let target = without_name(old_e.to_set(), name@);
            assert forall|x: Entry| old_e.to_set().contains(x) <==> target.contains(x) by {
                if old_e.contains(x) {
                    let k = choose|k: int| 0 <= k < old_e.len() && old_e[k] == x;
                    assert(old_e[k].0 != name@);
                }
            }
            assert(old_e.to_set() =~= target);
        }
        false
    }
}

/// The entries that a list of records describes when a later record of a name
/// overrides every earlier one.
pub open spec fn record_set(s: Seq<Entry>) -> Set<Entry>
    decreases s.len(),
{
    if s.len() == 0 {
        Set::empty()
    } else {
        without_name(record_set(s.drop_last()), s.last().0).insert(s.last())
    }
}

/// Sorts a list of records by name; of the records of one name the last is kept.
pub fn collect_services(records: &Vec<Service>) -> (r: Vec<Service>)
    ensures
        sorted_by_name(entries_of(r@)),
        entries_of(r@).to_set() == record_set(entries_of(records@)),
{
    let ghost recs = entries_of(records@);
    let mut r: Vec<Service> = Vec::new();
    let mut i: usize = 0;
    assert(entries_of(r@).to_set() =~= Set::empty());
    assert(recs.take(0) =~= Seq::<Entry>::empty());
    while i < records.len()
        invariant
            i <= records.len(),
            recs == entries_of(records@),
            sorted_by_name(entries_of(r@)),
            entries_of(r@).to_set() == record_set(recs.take(i as int)),
        decreases records.len() - i,
    {
        let s = records[i].duplicate();
        upsert(&mut r, s);
        proof {
            assert(recs.take(i + 1).drop_last() =~= recs.take(i as int));
            assert(recs.take(i + 1).last() == recs[i as int]);
        }
        i = i + 1;
    }
    assert(recs.take(records.len() as int) =~= recs);
    r
}

/// Whether two lists hold the same entries in the same order.
pub fn same_services(a: &Vec<Service>, b: &Vec<Service>) -> (r: bool)
    ensures
        r == (entries_of(a@) == entries_of(b@)),
{
    if a.len() != b.len() {
        proof {
            assert(entries_of(a@).len() != entries_of(b@).len());
        }
        return false;
    }
    let mut i: usize = 0;
    while i < a.len()
        invariant
            i <= a.len(),
            a.len() == b.len(),
            forall|j: int| 0 <= j < i ==> #[trigger] a@[j]@ == b@[j]@,
        decreases a.len() - i,
    {
        if a[i].name != b[i].name || a[i].version_req != b[i].version_req {
            proof {
                assert(entries_of(a@)[i as int] != entries_of(b@)[i as int]);
            }
            return false;
        }
        i = i + 1;
    }
    assert(entries_of(a@) =~= entries_of(b@));
    true
}

} // verus!
