use vstd::prelude::*;
use vstd::string::*;

use crate::text::{chars_lt, lemma_chars_lt_irreflexive, lemma_chars_lt_total, lemma_chars_lt_transitive, str_lt};

verus! {

/// One named offset inside a namespace.
pub struct OffsetEntry {
    pub name: String,
    pub offset: usize,
}

/// The offsets registered under one namespace, in the order they were first added.
pub struct Namespace {
    pub name: String,
    pub entries: Vec<OffsetEntry>,
}

struct ValueEntry {
    key: String,
    value: u64,
}

/// The registry of discovered offsets: namespaces kept in ascending name order,
/// each holding its entries in insertion order, plus sample values keyed by
/// `"<namespace>::<name>"`.
pub struct Dumper {
    namespaces: Vec<Namespace>,
    values: Vec<ValueEntry>,
}

/// An entry as the contracts see it: its name and its offset.
pub type EntriesView = Seq<(Seq<char>, usize)>;

pub open spec fn entries_view(v: Seq<OffsetEntry>) -> EntriesView {
    v.map_values(|e: OffsetEntry| (e.name@, e.offset))
}

pub open spec fn table_of(v: Seq<Namespace>) -> Seq<(Seq<char>, EntriesView)> {
    v.map_values(|n: Namespace| (n.name@, entries_view(n.entries@)))
}

/// No key occurs twice in an association list.
pub open spec fn keys_unique<V>(s: Seq<(Seq<char>, V)>) -> bool {
    forall|i: int, j: int| 0 <= i < j < s.len() ==> s[i].0 != s[j].0
}

/// Keys strictly ascending in code-point order.
pub open spec fn keys_sorted<V>(s: Seq<(Seq<char>, V)>) -> bool {
    forall|i: int, j: int| 0 <= i < j < s.len() ==> chars_lt(s[i].0, s[j].0)
}

pub open spec fn has_key<V>(s: Seq<(Seq<char>, V)>, k: Seq<char>) -> bool {
    exists|i: int| 0 <= i < s.len() && s[i].0 == k
}

/// The map that an association list with unique keys stands for.
pub open spec fn assoc_map<V>(s: Seq<(Seq<char>, V)>) -> Map<Seq<char>, V> {
    Map::new(
        |k: Seq<char>| has_key(s, k),
        |k: Seq<char>| s[choose|i: int| 0 <= i < s.len() && s[i].0 == k].1,
    )
}

/// Adding `name` with `offset` to a namespace's entries: an entry of that name
/// gets the new offset in place, otherwise a new entry goes to the end.
pub open spec fn upsert(es: EntriesView, name: Seq<char>, offset: usize) -> EntriesView {
    if has_key(es, name) {
        es.update(choose|i: int| 0 <= i < es.len() && es[i].0 == name, (name, offset))
    } else {
        es.push((name, offset))
    }
}

/// The offset registered under `name` in a namespace's entries.
pub open spec fn entry_lookup(es: EntriesView, name: Seq<char>) -> Option<usize> {
    if has_key(es, name) {
        Some(es[choose|i: int| 0 <= i < es.len() && es[i].0 == name].1)
    } else {
        None
    }
}

/// The key under which a sample value for `ns`/`name` is kept.
pub open spec fn value_key(ns: Seq<char>, name: Seq<char>) -> Seq<char> {
    ns + "::"@ + name
}

pub struct DumperView {
    pub offsets: Map<Seq<char>, EntriesView>,
    pub values: Map<Seq<char>, u64>,
}

pub open spec fn ns_entries(v: DumperView, ns: Seq<char>) -> EntriesView {
    if v.offsets.contains_key(ns) {
        v.offsets[ns]
    } else {
        Seq::empty()
    }
}

pub open spec fn spec_add_offset(v: DumperView, ns: Seq<char>, name: Seq<char>, offset: usize) -> DumperView {
    DumperView {
        offsets: v.offsets.insert(ns, upsert(ns_entries(v, ns), name, offset)),
        values: v.values,
    }
}

pub open spec fn spec_add_offset_val(
    v: DumperView,
    ns: Seq<char>,
    name: Seq<char>,
    offset: usize,
    value: u64,
) -> DumperView {
    DumperView {
        offsets: spec_add_offset(v, ns, name, offset).offsets,
        values: v.values.insert(value_key(ns, name), value),
    }
}

pub open spec fn spec_get_offset(v: DumperView, ns: Seq<char>, name: Seq<char>) -> Option<usize> {
    if v.offsets.contains_key(ns) {
        entry_lookup(v.offsets[ns], name)
    } else {
        None
    }
}

pub open spec fn spec_get_value(v: DumperView, ns: Seq<char>, name: Seq<char>) -> Option<u64> {
    if v.values.contains_key(value_key(ns, name)) {
        Some(v.values[value_key(ns, name)])
    } else {
        None
    }
}

/// Within every namespace no entry name occurs twice.
pub open spec fn view_wf(v: DumperView) -> bool {
    forall|ns: Seq<char>| #[trigger] v.offsets.contains_key(ns) ==> keys_unique(v.offsets[ns])
}

/// Total number of registered offsets.
pub open spec fn entry_count(t: Seq<(Seq<char>, EntriesView)>) -> nat
    decreases t.len(),
{
    if t.len() == 0 {
        0
    } else {
        entry_count(t.drop_last()) + t.last().1.len()
    }
}

impl View for Dumper {
    type V = DumperView;

    open spec fn view(&self) -> DumperView {
        DumperView { offsets: assoc_map(self.table()), values: assoc_map(self.value_list()) }
    }
}

pub proof fn lemma_sorted_unique<V>(s: Seq<(Seq<char>, V)>)
    requires
        keys_sorted(s),
    ensures
        keys_unique(s),
{
    assert forall|i: int, j: int| 0 <= i < j < s.len() implies s[i].0 != s[j].0 by {
        if s[i].0 == s[j].0 {
            lemma_chars_lt_irreflexive(s[i].0);
        }
    }
}

pub proof fn lemma_assoc_at<V>(s: Seq<(Seq<char>, V)>, i: int)
    requires
        keys_unique(s),
        0 <= i < s.len(),
    ensures
        assoc_map(s).contains_key(s[i].0),
        assoc_map(s)[s[i].0] == s[i].1,
{
    let k = s[i].0;
    assert(has_key(s, k));
    let j = choose|j: int| 0 <= j < s.len() && s[j].0 == k;
    assert(j == i);
}

pub proof fn lemma_assoc_absent<V>(s: Seq<(Seq<char>, V)>, k: Seq<char>)
    requires
        !has_key(s, k),
    ensures
        !assoc_map(s).contains_key(k),
{
}

pub proof fn lemma_assoc_update<V>(s: Seq<(Seq<char>, V)>, i: int, v: V)
    requires
        keys_unique(s),
        0 <= i < s.len(),
    ensures
        keys_unique(s.update(i, (s[i].0, v))),
        assoc_map(s.update(i, (s[i].0, v))) =~= assoc_map(s).insert(s[i].0, v),
{
    let t = s.update(i, (s[i].0, v));
    assert(keys_unique(t));
    assert forall|k: Seq<char>| has_key(s, k) || k == s[i].0 implies #[trigger] has_key(t, k) by {
        if has_key(s, k) {
            let j = choose|j: int| 0 <= j < s.len() && s[j].0 == k;
            assert(t[j].0 == k);
        }
        if k == s[i].0 {
            assert(t[i].0 == k);
        }
    }
    assert forall|k: Seq<char>| #[trigger] has_key(t, k) implies has_key(s, k) by {
        let j = choose|j: int| 0 <= j < t.len() && t[j].0 == k;
        assert(s[j].0 == k);
    }
    assert forall|k: Seq<char>| has_key(t, k) implies #[trigger] assoc_map(t)[k] == assoc_map(s).insert(s[i].0, v)[k] by {
        let j = choose|j: int| 0 <= j < t.len() && t[j].0 == k;
        lemma_assoc_at(t, j);
        if j == i {
        } else {
            lemma_assoc_at(s, j);
        }
    }
}

pub proof fn lemma_assoc_insert<V>(s: Seq<(Seq<char>, V)>, i: int, k: Seq<char>, v: V)
    requires
        keys_unique(s.insert(i, (k, v))),
        0 <= i <= s.len(),
    ensures
        assoc_map(s.insert(i, (k, v))) =~= assoc_map(s).insert(k, v),
{
    let t = s.insert(i, (k, v));
    assert forall|x: Seq<char>| has_key(s, x) || x == k implies #[trigger] has_key(t, x) by {
        if has_key(s, x) {
            let j = choose|j: int| 0 <= j < s.len() && s[j].0 == x;
            if j < i {
                assert(t[j].0 == x);
            } else {
                assert(t[j + 1].0 == x);
            }
        }
        if x == k {
            assert(t[i].0 == x);
        }
    }
    assert forall|x: Seq<char>| #[trigger] has_key(t, x) implies has_key(s, x) || x == k by {
        let j = choose|j: int| 0 <= j < t.len() && t[j].0 == x;
        if j < i {
            assert(s[j].0 == x);
        } else if j > i {
            assert(s[j - 1].0 == x);
        }
    }
    assert(keys_unique(s)) by {
        assert forall|a: int, b: int| 0 <= a < b < s.len() implies s[a].0 != s[b].0 by {
            let a2 = if a < i { a } else { a + 1 };
            let b2 = if b < i { b } else { b + 1 };
            assert(t[a2] == s[a]);
            assert(t[b2] == s[b]);
        }
    }
    assert forall|x: Seq<char>| has_key(t, x) implies #[trigger] assoc_map(t)[x] == assoc_map(s).insert(k, v)[x] by {
        let j = choose|j: int| 0 <= j < t.len() && t[j].0 == x;
        lemma_assoc_at(t, j);
        if j < i {
            assert(t[j] == s[j]);
            assert(t[i].0 == k);
            lemma_assoc_at(s, j);
        } else if j > i {
            assert(t[j] == s[j - 1]);
            assert(t[i].0 == k);
            lemma_assoc_at(s, j - 1);
        }
    }
}

impl Dumper {
    pub closed spec fn table(&self) -> Seq<(Seq<char>, EntriesView)> {
        table_of(self.namespaces@)
    }

    pub closed spec fn value_list(&self) -> Seq<(Seq<char>, u64)> {
        self.values@.map_values(|e: ValueEntry| (e.key@, e.value))
    }

    /// Namespaces ascend by name, entry names are unique in each namespace,
    /// value keys are unique.
    pub closed spec fn wf(&self) -> bool {
        &&& keys_sorted(self.table())
        &&& forall|i: int| 0 <= i < self.table().len() ==> keys_unique(#[trigger] self.table()[i].1)
        &&& keys_unique(self.value_list())
    }

    /// A well-formed registry has a well-formed view: no name occurs twice in a
    /// namespace, and the namespaces, read in order, give the view's map.
    pub proof fn lemma_wf_view(&self)
        requires
            self.wf(),
        ensures
            view_wf(self@),
            keys_sorted(self.table()),
            self@.offsets == assoc_map(self.table()),
    {
        lemma_sorted_unique(self.table());
        assert forall|ns: Seq<char>| #[trigger] self@.offsets.contains_key(ns) implies keys_unique(
            self@.offsets[ns],
        ) by {
            let j = choose|j: int| 0 <= j < self.table().len() && self.table()[j].0 == ns;
            lemma_assoc_at(self.table(), j);
        }
    }

    /// An empty registry.
    pub fn new() -> (d: Self)
        ensures
            d.wf(),
            d@.offsets == Map::<Seq<char>, EntriesView>::empty(),
            d@.values == Map::<Seq<char>, u64>::empty(),
            d.table() == Seq::<(Seq<char>, EntriesView)>::empty(),
    {
        let d = Dumper { namespaces: Vec::new(), values: Vec::new() };
        assert(d@.offsets =~= Map::<Seq<char>, EntriesView>::empty());
        assert(d@.values =~= Map::<Seq<char>, u64>::empty());
        assert(d.table() =~= Seq::<(Seq<char>, EntriesView)>::empty());
        d
    }

    /// The namespaces in ascending name order, for rendering.
    pub fn namespaces(&self) -> (r: &Vec<Namespace>)
        ensures
            table_of(r@) == self.table(),
    {
        &self.namespaces
    }

    /// Registers `offset` under `ns`/`name`, replacing an earlier offset of that name.
    pub fn add_offset(&mut self, ns: &str, name: &str, offset: usize)
        requires
            old(self).wf(),
        ensures
            final(self).wf(),
            final(self)@ == spec_add_offset(old(self)@, ns@, name@, offset),
    {
        let ghost old_t = self.table();
        proof {
            lemma_sorted_unique(old_t);
        }
        let ns_s = String::from_str(ns);
        let n = self.namespaces.len();
        let mut i: usize = 0;
        while i < n && str_lt(self.namespaces[i].name.as_str(), ns)
            invariant
                i <= n,
                n == self.namespaces@.len(),
                self.table() == old_t,
                forall|j: int| 0 <= j < i ==> chars_lt(#[trigger] old_t[j].0, ns@),
            decreases n - i,
        {
            i = i + 1;
        }
        if i < n && self.namespaces[i].name == ns_s {
            assert(keys_unique(old_t[i as int].1));
            let mut slot = self.namespaces.remove(i);
            let ghost es0 = entries_view(slot.entries@);
            assert(old_t[i as int] == (slot.name@, es0));
            proof {
                lemma_assoc_at(old_t, i as int);
            }
            upsert_entry(&mut slot.entries, name, offset);
            self.namespaces.insert(i, slot);
            proof {
                let t = self.table();
                assert(t =~= old_t.update(i as int, (old_t[i as int].0, upsert(es0, name@, offset))));
                lemma_assoc_update(old_t, i as int, upsert(es0, name@, offset));
                lemma_assoc_at(old_t, i as int);
                assert forall|a: int, b: int| 0 <= a < b < t.len() implies chars_lt(t[a].0, t[b].0) by {
                    assert(t[a].0 == old_t[a].0);
                    assert(t[b].0 == old_t[b].0);
                }
                assert forall|j: int| 0 <= j < t.len() implies keys_unique(#[trigger] t[j].1) by {
                    if j != i {
                        assert(t[j] == old_t[j]);
                    }
                }
            }
        } else {
            let ghost es0 = Seq::<(Seq<char>, usize)>::empty();
            let fresh = Namespace {
                name: ns_s,
                entries: vec![OffsetEntry { name: String::from_str(name), offset }],
            };
            proof {
                assert(!has_key(old_t, ns@)) by {
                    if has_key(old_t, ns@) {
                        let j = choose|j: int| 0 <= j < old_t.len() && old_t[j].0 == ns@;
                        if j < i {
                            lemma_chars_lt_irreflexive(ns@);
                        } else {
                            // old_t[i] is not below ns and differs from it, so it is above
                            assert(!chars_lt(old_t[i as int].0, ns@));
                            assert(old_t[i as int].0 != ns@);
                            lemma_chars_lt_total(old_t[i as int].0, ns@);
                            if j > i {
                                lemma_chars_lt_transitive(ns@, old_t[i as int].0, old_t[j].0);
                                lemma_chars_lt_irreflexive(ns@);
                            }
                        }
                    }
                }
                assert(!has_key(es0, name@));
                assert(entries_view(fresh.entries@) =~= upsert(es0, name@, offset));
            }
            self.namespaces.insert(i, fresh);
            proof {
                let t = self.table();
                let newp = (ns@, upsert(es0, name@, offset));
                assert(t =~= old_t.insert(i as int, newp));
                assert forall|a: int, b: int| 0 <= a < b < t.len() implies chars_lt(t[a].0, t[b].0) by {
                    if i < n {
                        assert(!chars_lt(old_t[i as int].0, ns@));
                        assert(old_t[i as int].0 != ns@) by {
                            if old_t[i as int].0 == ns@ {
                                assert(has_key(old_t, ns@));
                            }
                        }
                        lemma_chars_lt_total(old_t[i as int].0, ns@);
                    }
                    if b < i {
                    } else if a < i && b == i {
                    } else if a < i && b > i {
                        if b - 1 > i {
                            lemma_chars_lt_transitive(ns@, old_t[i as int].0, old_t[b - 1].0);
                        }
                        lemma_chars_lt_transitive(old_t[a].0, ns@, old_t[b - 1].0);
                    } else if a == i {
                        if b - 1 > i {
                            lemma_chars_lt_transitive(ns@, old_t[i as int].0, old_t[b - 1].0);
                        }
                    } else {
                        assert(t[a] == old_t[a - 1]);
                        assert(t[b] == old_t[b - 1]);
                    }
                }
                lemma_sorted_unique(t);
                lemma_assoc_insert(old_t, i as int, ns@, upsert(es0, name@, offset));
                lemma_assoc_absent(old_t, ns@);
                assert forall|j: int| 0 <= j < t.len() implies keys_unique(#[trigger] t[j].1) by {
                    if j < i {
                        assert(t[j] == old_t[j]);
                    } else if j > i {
                        assert(t[j] == old_t[j - 1]);
                    }
                }
            }
        }
        proof {
            assert(self@.values == old(self)@.values);
        }
    }
}

impl Dumper {
    /// The offset registered under `ns`/`name`, if any.
    pub fn get_offset(&self, ns: &str, name: &str) -> (r: Option<usize>)
        requires
            self.wf(),
        ensures
            r == spec_get_offset(self@, ns@, name@),
    {
        let ghost t = self.table();
        proof {
            lemma_sorted_unique(t);
        }
        let ns_s = String::from_str(ns);
        let name_s = String::from_str(name);
        let n = self.namespaces.len();
        let mut i: usize = 0;
        while i < n
            invariant
                i <= n,
                n == self.namespaces@.len(),
                t == self.table(),
                self.wf(),
                keys_unique(t),
                ns_s@ == ns@,
                name_s@ == name@,
                forall|j: int| 0 <= j < i ==> (#[trigger] t[j]).0 != ns@,
            decreases n - i,
        {
            assert(t[i as int].0 == self.namespaces@[i as int].name@);
            if self.namespaces[i].name == ns_s {
                proof {
                    lemma_assoc_at(t, i as int);
                    assert(keys_unique(t[i as int].1));
                }
                let ghost es = t[i as int].1;
                let entries = &self.namespaces[i].entries;
                assert(es == entries_view(entries@));
                let m = entries.len();
                let mut k: usize = 0;
                while k < m
                    invariant
                        k <= m,
                        m == entries@.len(),
                        es == entries_view(entries@),
                        name_s@ == name@,
                        keys_unique(es),
                        self@.offsets.contains_key(ns@),
                        self@.offsets[ns@] == es,
                        forall|j: int| 0 <= j < k ==> (#[trigger] es[j]).0 != name@,
                    decreases m - k,
                {
                    assert(es[k as int] == (entries@[k as int].name@, entries@[k as int].offset));
                    if entries[k].name == name_s {
                        proof {
                            assert(has_key(es, name@));
                            let c = choose|c: int| 0 <= c < es.len() && es[c].0 == name@;
                            assert(c == k as int);
                        }
                        return Some(entries[k].offset);
                    }
                    k = k + 1;
                }
                assert(!has_key(es, name@));
                return None;
            }
            i = i + 1;
        }
        assert(!has_key(t, ns@));
        None
    }

    /// Registers `offset` under `ns`/`name` and keeps `value` as the sample value
    /// found there.
    pub fn add_offset_val(&mut self, ns: &str, name: &str, offset: usize, value: u64)
        requires
            old(self).wf(),
        ensures
            final(self).wf(),
            final(self)@ == spec_add_offset_val(old(self)@, ns@, name@, offset, value),
    {
        self.add_offset(ns, name, offset);
        let key = value_key_of(ns, name);
        let ghost vl = self.value_list();
        let ghost mid = self@;
        let n = self.values.len();
        let mut i: usize = 0;
        while i < n && !(self.values[i].key == key)
            invariant
                i <= n,
                n == self.values@.len(),
                vl == self.value_list(),
                forall|j: int| 0 <= j < i ==> (#[trigger] vl[j]).0 != key@,
            decreases n - i,
        {
            i = i + 1;
        }
        if i < n {
            assert(vl[i as int].0 == key@);
            let k2 = self.values[i].key.clone();
            self.values.set(i, ValueEntry { key: k2, value });
            proof {
                assert(self.value_list() =~= vl.update(i as int, (vl[i as int].0, value)));
                lemma_assoc_update(vl, i as int, value);
            }
        } else {
            proof {
                assert(!has_key(vl, key@));
            }
            self.values.push(ValueEntry { key, value });
            proof {
                assert(self.value_list() =~= vl.insert(vl.len() as int, (key@, value)));
                assert(keys_unique(vl.insert(vl.len() as int, (key@, value))));
                lemma_assoc_insert(vl, vl.len() as int, key@, value);
            }
        }
        assert(self@.offsets == mid.offsets);
    }

    /// The sample value kept for `ns`/`name`, if any.
    pub fn get_value(&self, ns: &str, name: &str) -> (r: Option<u64>)
        requires
            self.wf(),
        ensures
            r == spec_get_value(self@, ns@, name@),
    {
        let key = value_key_of(ns, name);
        let ghost vl = self.value_list();
        assert(keys_unique(vl));
        let n = self.values.len();
        let mut i: usize = 0;
        while i < n
            invariant
                i <= n,
                n == self.values@.len(),
                vl == self.value_list(),
                keys_unique(vl),
                key@ == value_key(ns@, name@),
                forall|j: int| 0 <= j < i ==> (#[trigger] vl[j]).0 != key@,
            decreases n - i,
        {
            assert(vl[i as int] == (self.values@[i as int].key@, self.values@[i as int].value));
            if self.values[i].key == key {
                proof {
                    lemma_assoc_at(vl, i as int);
                }
                return Some(self.values[i].value);
            }
            i = i + 1;
        }
        assert(!has_key(vl, key@));
        None
    }
}

/// Builds the key `"<ns>::<name>"` under which a sample value is kept.
fn value_key_of(ns: &str, name: &str) -> (k: String)
    ensures
        k@ == value_key(ns@, name@),
{
    let mut k = String::from_str(ns);
    k.append("::");
    k.append(name);
    k
}

/// What adding one entry does to a namespace's entries: the name then maps to
/// the new offset, every other name keeps its offset, and the list grows by one
/// exactly when the name was not there before.
pub proof fn lemma_upsert(es: EntriesView, name: Seq<char>, offset: usize)
    requires
        keys_unique(es),
    ensures
        keys_unique(upsert(es, name, offset)),
        entry_lookup(upsert(es, name, offset), name) == Some(offset),
        forall|other: Seq<char>|
            other != name ==> #[trigger] entry_lookup(upsert(es, name, offset), other) == entry_lookup(
                es,
                other,
            ),
        upsert(es, name, offset).len() == es.len() + (if has_key(es, name) { 0int } else { 1int }),
{
    let u = upsert(es, name, offset);
    if has_key(es, name) {
        let c = choose|i: int| 0 <= i < es.len() && es[i].0 == name;
        lemma_assoc_update(es, c, offset);
        lemma_assoc_at(u, c);
        assert forall|other: Seq<char>| other != name implies #[trigger] entry_lookup(u, other) == entry_lookup(es, other) by {
            if has_key(es, other) {
                let j = choose|j: int| 0 <= j < es.len() && es[j].0 == other;
                lemma_assoc_at(es, j);
                lemma_assoc_at(u, j);
                assert(u[j] == es[j]);
            }
            if has_key(u, other) {
                let j = choose|j: int| 0 <= j < u.len() && u[j].0 == other;
                assert(es[j].0 == other);
            }
        }
    } else {
        lemma_assoc_insert(es, es.len() as int, name, offset);
        assert(u =~= es.insert(es.len() as int, (name, offset)));
        assert(keys_unique(u));
        lemma_assoc_at(u, es.len() as int);
        assert forall|other: Seq<char>| other != name implies #[trigger] entry_lookup(u, other) == entry_lookup(es, other) by {
            if has_key(es, other) {
                let j = choose|j: int| 0 <= j < es.len() && es[j].0 == other;
                lemma_assoc_at(es, j);
                lemma_assoc_at(u, j);
            }
            if has_key(u, other) {
                let j = choose|j: int| 0 <= j < u.len() && u[j].0 == other;
                assert(es[j].0 == other);
            }
        }
    }
}

/// A lookup right after registering `ns`/`name` gives back the offset just
/// registered.
pub proof fn law_get_after_add(v: DumperView, ns: Seq<char>, name: Seq<char>, offset: usize)
    requires
        view_wf(v),
    ensures
        spec_get_offset(spec_add_offset(v, ns, name, offset), ns, name) == Some(offset),
        view_wf(spec_add_offset(v, ns, name, offset)),
{
    let es = ns_entries(v, ns);
    assert(keys_unique(es));
    lemma_upsert(es, name, offset);
    let w = spec_add_offset(v, ns, name, offset);
    assert forall|k: Seq<char>| #[trigger] w.offsets.contains_key(k) implies keys_unique(w.offsets[k]) by {
        if k != ns {
            assert(v.offsets.contains_key(k));
        }
    }
}

/// Registering `ns`/`name` leaves the offset of every other namespace and name
/// as it was.
pub proof fn law_add_keeps_others(
    v: DumperView,
    ns: Seq<char>,
    name: Seq<char>,
    offset: usize,
    ns2: Seq<char>,
    name2: Seq<char>,
)
    requires
        view_wf(v),
        ns2 != ns || name2 != name,
    ensures
        spec_get_offset(spec_add_offset(v, ns, name, offset), ns2, name2) == spec_get_offset(
            v,
            ns2,
            name2,
        ),
{
    let es = ns_entries(v, ns);
    lemma_upsert(es, name, offset);
    if ns2 == ns {
        assert(entry_lookup(upsert(es, name, offset), name2) == entry_lookup(es, name2));
        if !v.offsets.contains_key(ns) {
            assert(!has_key(es, name2));
        }
    }
}

/// Registering the same namespace and name twice is the same as registering
/// only the second offset.
pub proof fn law_add_twice(v: DumperView, ns: Seq<char>, name: Seq<char>, a: usize, b: usize)
    requires
        view_wf(v),
    ensures
        spec_add_offset(spec_add_offset(v, ns, name, a), ns, name, b) == spec_add_offset(v, ns, name, b),
{
    let es = ns_entries(v, ns);
    lemma_upsert(es, name, a);
    let u = upsert(es, name, a);
    assert(has_key(u, name)) by {
        let e = entry_lookup(u, name);
        assert(e is Some);
    }
    let c = choose|i: int| 0 <= i < u.len() && u[i].0 == name;
    if has_key(es, name) {
        let d = choose|i: int| 0 <= i < es.len() && es[i].0 == name;
        assert(u[d].0 == name);
        assert(c == d);
        assert(upsert(u, name, b) =~= upsert(es, name, b));
    } else {
        assert(u[es.len() as int].0 == name);
        assert(c == es.len());
        assert(upsert(u, name, b) =~= upsert(es, name, b));
    }
    let x = spec_add_offset(spec_add_offset(v, ns, name, a), ns, name, b);
    let y = spec_add_offset(v, ns, name, b);
    assert(x.offsets =~= y.offsets);
}

/// After registering `ns`/`name` with a sample value, that value is what the
/// value lookup gives back, and the offset is what the offset lookup gives back.
pub proof fn law_value_after_add(v: DumperView, ns: Seq<char>, name: Seq<char>, offset: usize, value: u64)
    requires
        view_wf(v),
    ensures
        spec_get_value(spec_add_offset_val(v, ns, name, offset, value), ns, name) == Some(value),
        spec_get_offset(spec_add_offset_val(v, ns, name, offset, value), ns, name) == Some(offset),
{
    law_get_after_add(v, ns, name, offset);
}

/// Registering a name that a namespace already holds updates its entry in
/// place: the namespace keeps its number of entries.
pub proof fn law_add_existing_in_place(v: DumperView, ns: Seq<char>, name: Seq<char>, offset: usize)
    requires
        view_wf(v),
        spec_get_offset(v, ns, name) is Some,
    ensures
        spec_add_offset(v, ns, name, offset).offsets[ns].len() == v.offsets[ns].len(),
        spec_get_offset(spec_add_offset(v, ns, name, offset), ns, name) == Some(offset),
{
    let es = ns_entries(v, ns);
    assert(v.offsets.contains_key(ns));
    assert(has_key(es, name));
    lemma_upsert(es, name, offset);
    law_get_after_add(v, ns, name, offset);
}

/// Registering the offset a name already has changes nothing.
pub proof fn law_add_same_offset(v: DumperView, ns: Seq<char>, name: Seq<char>, offset: usize)
    requires
        view_wf(v),
        spec_get_offset(v, ns, name) == Some(offset),
    ensures
        spec_add_offset(v, ns, name, offset) == v,
{
    let es = ns_entries(v, ns);
    assert(v.offsets.contains_key(ns));
    assert(has_key(es, name));
    let c = choose|i: int| 0 <= i < es.len() && es[i].0 == name;
    assert(es[c] == (name, offset));
    assert(upsert(es, name, offset) =~= es);
    let w = spec_add_offset(v, ns, name, offset);
    assert(w.offsets =~= v.offsets);
    assert(w.values =~= v.values);
}

/// Sets `name` to `offset` in one namespace's entries.
fn upsert_entry(entries: &mut Vec<OffsetEntry>, name: &str, offset: usize)
    requires
        keys_unique(entries_view(old(entries)@)),
    ensures
        keys_unique(entries_view(final(entries)@)),
        entries_view(final(entries)@) == upsert(entries_view(old(entries)@), name@, offset),
{
    let ghost es = entries_view(entries@);
    let name_s = String::from_str(name);
    let n = entries.len();
    let mut i: usize = 0;
    while i < n && !(entries[i].name == name_s)
        invariant
            i <= n,
            n == entries@.len(),
            es == entries_view(entries@),
            name_s@ == name@,
            forall|j: int| 0 <= j < i ==> (#[trigger] es[j]).0 != name@,
        decreases n - i,
    {
        i = i + 1;
    }
    if i < n {
        proof {
            assert(es[i as int].0 == name@);
            assert(has_key(es, name@));
            let k = choose|k: int| 0 <= k < es.len() && es[k].0 == name@;
            assert(k == i as int);
        }
        let nm = entries[i].name.clone();
        entries.set(i, OffsetEntry { name: nm, offset });
        assert(entries_view(entries@) =~= es.update(i as int, (name@, offset)));
        assert(keys_unique(entries_view(entries@))) by {
            let e2 = entries_view(entries@);
            assert forall|a: int, b: int| 0 <= a < b < e2.len() implies e2[a].0 != e2[b].0 by {
                assert(e2[a].0 == es[a].0);
                assert(e2[b].0 == es[b].0);
            }
        }
    } else {
        assert(!has_key(es, name@));
        entries.push(OffsetEntry { name: name_s, offset });
        assert(entries_view(entries@) =~= es.push((name@, offset)));
    }
}

} // verus!
