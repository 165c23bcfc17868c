use crate::order::{compare_names, lemma_name_lt_irreflexive, lemma_name_lt_transitive, name_lt};
use crate::version::Version;
use vstd::prelude::*;

verus! {

/// Names strictly increasing in `name_lt`, so that no name occurs twice.
pub open spec fn sorted_by_name(s: Seq<(Seq<char>, Seq<u8>)>) -> bool {
    forall|i: int, j: int| 0 <= i < j < s.len() ==> name_lt(#[trigger] s[i].0, #[trigger] s[j].0)
}

pub open spec fn holds_name(s: Seq<(Seq<char>, Seq<u8>)>, k: Seq<char>) -> bool {
    exists|i: int| 0 <= i < s.len() && s[i].0 == k
}

/// The mapping from name to payload that a sequence of entries stands for.
pub open spec fn entry_map(s: Seq<(Seq<char>, Seq<u8>)>) -> Map<Seq<char>, Seq<u8>> {
    Map::new(
        |k: Seq<char>| holds_name(s, k),
        |k: Seq<char>| s[choose|i: int| 0 <= i < s.len() && s[i].0 == k].1,
    )
}

/// The entries of a vector, as names and payloads.
pub open spec fn entries_view(v: Seq<(String, Vec<u8>)>) -> Seq<(Seq<char>, Seq<u8>)> {
    v.map_values(|e: (String, Vec<u8>)| (e.0@, e.1@))
}

pub proof fn lemma_entry_map_at(s: Seq<(Seq<char>, Seq<u8>)>, i: int)
    requires
        sorted_by_name(s),
        0 <= i < s.len(),
    ensures
        entry_map(s).contains_key(s[i].0),
        entry_map(s)[s[i].0] == s[i].1,
{
    assert(holds_name(s, s[i].0));
    let j = choose|j: int| 0 <= j < s.len() && s[j].0 == s[i].0;
    lemma_name_lt_irreflexive(s[i].0);
    if j < i {
        assert(name_lt(s[j].0, s[i].0));
    } else if j > i {
        assert(name_lt(s[i].0, s[j].0));
    }
}

/// `t` holds what `s` holds, with `k` mapped to `v` in place of what `s` had
/// under `k`.
proof fn lemma_entry_map_insert(
    s: Seq<(Seq<char>, Seq<u8>)>,
    t: Seq<(Seq<char>, Seq<u8>)>,
    k: Seq<char>,
    v: Seq<u8>,
)
    requires
        sorted_by_name(s),
        sorted_by_name(t),
        t.contains((k, v)),
        forall|i: int| 0 <= i < t.len() && t[i].0 != k ==> s.contains(#[trigger] t[i]),
        forall|j: int| 0 <= j < s.len() && s[j].0 != k ==> t.contains(#[trigger] s[j]),
    ensures
        entry_map(t) == entry_map(s).insert(k, v),
{
    let m = entry_map(s).insert(k, v);
    assert forall|x: Seq<char>| #[trigger] entry_map(t).contains_key(x) == m.contains_key(x) by {
        if holds_name(t, x) && x != k {
            let i = choose|i: int| 0 <= i < t.len() && t[i].0 == x;
            assert(s.contains(t[i]));
            let j = choose|j: int| 0 <= j < s.len() && s[j] == t[i];
            assert(s[j].0 == x);
        }
        if x == k {
            let i = choose|i: int| 0 <= i < t.len() && t[i] == (k, v);
            assert(t[i].0 == x);
        }
        if holds_name(s, x) && x != k {
            let j = choose|j: int| 0 <= j < s.len() && s[j].0 == x;
            assert(t.contains(s[j]));
            let i = choose|i: int| 0 <= i < t.len() && t[i] == s[j];
            assert(t[i].0 == x);
        }
    }
    assert forall|x: Seq<char>| entry_map(t).contains_key(x) implies #[trigger] entry_map(t)[x]
        == m[x] by {
        let i = choose|i: int| 0 <= i < t.len() && t[i].0 == x;
        lemma_entry_map_at(t, i);
        if x == k {
            let i2 = choose|i2: int| 0 <= i2 < t.len() && t[i2] == (k, v);
            lemma_entry_map_at(t, i2);
        } else {
            assert(s.contains(t[i]));
            let j = choose|j: int| 0 <= j < s.len() && s[j] == t[i];
            lemma_entry_map_at(s, j);
        }
    }
    assert(entry_map(t) =~= m);
}

/// An in-memory archive under construction: a format revision, a mount
/// point, an optional path-hash seed, and the staged entries kept in name
/// order with each name once.
pub struct PakMemory {
    version: Version,
    mount_point: String,
    path_hash_seed: Option<u64>,
    data: Vec<(String, Vec<u8>)>,
}

/// What a builder hands to the archive writer: its configuration and its
/// entries in the order in which they are written.
pub struct PakLayout {
    pub version: Version,
    pub mount_point: String,
    pub path_hash_seed: Option<u64>,
    pub entries: Vec<(String, Vec<u8>)>,
}

impl PakMemory {
    pub closed spec fn entries(&self) -> Seq<(Seq<char>, Seq<u8>)> {
        entries_view(self.data@)
    }

    pub closed spec fn wf(&self) -> bool {
        sorted_by_name(self.entries())
    }

    /// The staged mapping from entry name to payload.
    pub open spec fn staged(&self) -> Map<Seq<char>, Seq<u8>> {
        entry_map(self.entries())
    }

    pub closed spec fn spec_version(&self) -> Version {
        self.version
    }

    pub closed spec fn spec_mount_point(&self) -> Seq<char> {
        self.mount_point@
    }

    pub closed spec fn spec_path_hash_seed(&self) -> Option<u64> {
        self.path_hash_seed
    }

    /// An empty builder for `version`, mounted at `../../../`, without a
    /// path-hash seed.
    pub fn new(version: Version) -> (r: Self)
        ensures
            r.wf(),
            r.staged() == Map::<Seq<char>, Seq<u8>>::empty(),
            r.spec_version() == version,
            r.spec_mount_point() == "../../../"@,
            r.spec_path_hash_seed() is None,
    {
        let r = PakMemory {
            version,
            data: Vec::new(),
            mount_point: "../../../".to_owned(),
            path_hash_seed: None,
        };
        assert(r.staged() =~= Map::<Seq<char>, Seq<u8>>::empty());
        r
    }

    /// Where `name` stands or would stand among the staged entries, and
    /// whether it is there.
    fn position(&self, name: &str) -> (r: (usize, bool))
        requires
            self.wf(),
        ensures
            r.0 <= self.entries().len(),
            forall|i: int| 0 <= i < r.0 ==> name_lt(#[trigger] self.entries()[i].0, name@),
            r.1 ==> r.0 < self.entries().len() && self.entries()[r.0 as int].0 == name@,
            !r.1 ==> (r.0 < self.entries().len() ==> name_lt(
                name@,
                self.entries()[r.0 as int].0,
            )),
    {
        let ghost s = self.entries();
        let mut p: usize = 0;
        while p < self.data.len()
            invariant
                s == self.entries(),
                s.len() == self.data.len(),
                p <= self.data.len(),
                forall|i: int| 0 <= i < p ==> name_lt(#[trigger] s[i].0, name@),
            decreases self.data.len() - p,
        {
            assert(s[p as int].0 == self.data[p as int].0@);
            match compare_names(self.data[p].0.as_str(), name) {
                core::cmp::Ordering::Less => {
                    p = p + 1;
                },
                core::cmp::Ordering::Equal => {
                    return (p, true);
                },
                core::cmp::Ordering::Greater => {
                    return (p, false);
                },
            }
        }
        (p, false)
    }

    /// Stages `data` under `name`, replacing what was staged there before.
    pub fn set_entry(&mut self, name: String, data: Vec<u8>)
        requires
            old(self).wf(),
        ensures
            final(self).wf(),
            final(self).staged() == old(self).staged().insert(name@, data@),
            final(self).spec_version() == old(self).spec_version(),
            final(self).spec_mount_point() == old(self).spec_mount_point(),
            final(self).spec_path_hash_seed() == old(self).spec_path_hash_seed(),
    {
        let ghost s = self.entries();
        let ghost k = name@;
        let ghost v = data@;
        let (p, found) = self.position(name.as_str());
        if found {
            self.data[p] = (name, data);
            proof {
                let t = self.entries();
                assert(t =~= s.update(p as int, (k, v)));
                assert(t[p as int] == (k, v));
                assert(sorted_by_name(t)) by {
                    assert forall|i: int, j: int| 0 <= i < j < t.len() implies name_lt(
                        #[trigger] t[i].0,
                        #[trigger] t[j].0,
                    ) by {
                        assert(t[i].0 == s[i].0 && t[j].0 == s[j].0);
                    }
                }
                assert forall|i: int| 0 <= i < t.len() && t[i].0 != k implies s.contains(
                    #[trigger] t[i],
                ) by {
                    assert(s[i] == t[i]);
                }
                assert forall|j: int| 0 <= j < s.len() && s[j].0 != k implies t.contains(
                    #[trigger] s[j],
                ) by {
                    assert(s[j] == t[j]);
                }
                lemma_entry_map_insert(s, t, k, v);
            }
        } else {
            self.data.insert(p, (name, data));
            proof {
                let t = self.entries();
                assert(t =~= s.insert(p as int, (k, v)));
                assert(t[p as int] == (k, v));
                assert(sorted_by_name(t)) by {
                    assert forall|i: int, j: int| 0 <= i < j < t.len() implies name_lt(
                        #[trigger] t[i].0,
                        #[trigger] t[j].0,
                    ) by {
                        if j < p {
                            assert(t[i] == s[i] && t[j] == s[j]);
                        } else if j == p {
                            assert(t[i] == s[i]);
                        } else if i == p {
                            assert(t[j] == s[j - 1]);
                            if j - 1 > p {
                                lemma_name_lt_transitive(k, s[p as int].0, s[j - 1].0);
                            }
                        } else if i < p {
                            assert(t[i] == s[i] && t[j] == s[j - 1]);
                            lemma_name_lt_transitive(s[i].0, k, s[p as int].0);
                            if j - 1 > p {
                                lemma_name_lt_transitive(s[i].0, s[p as int].0, s[j - 1].0);
                            }
                        } else {
                            assert(t[i] == s[i - 1] && t[j] == s[j - 1]);
                        }
                    }
                }
                assert forall|i: int| 0 <= i < t.len() && t[i].0 != k implies s.contains(
                    #[trigger] t[i],
                ) by {
                    if i < p {
                        assert(s[i] == t[i]);
                    } else {
                        assert(s[i - 1] == t[i]);
                    }
                }
                assert forall|j: int| 0 <= j < s.len() && s[j].0 != k implies t.contains(
                    #[trigger] s[j],
                ) by {
                    if j < p {
                        assert(s[j] == t[j]);
                    } else {
                        assert(s[j] == t[j + 1]);
                    }
                }
                lemma_entry_map_insert(s, t, k, v);
            }
        }
    }

    /// The payload staged under `name`, if any.
    pub fn get_entry(&self, name: &str) -> (r: Option<&Vec<u8>>)
        requires
            self.wf(),
        ensures
            r is None <==> !self.staged().contains_key(name@),
            r matches Some(d) ==> d@ == self.staged()[name@],
    {
        let (p, found) = self.position(name);
        let ghost s = self.entries();
        if found {
            proof {
                lemma_entry_map_at(s, p as int);
            }
            Some(&self.data[p].1)
        } else {
            proof {
                if holds_name(s, name@) {
                    let i = choose|i: int| 0 <= i < s.len() && s[i].0 == name@;
                    lemma_name_lt_irreflexive(name@);
                    if i > p {
                        lemma_name_lt_transitive(name@, s[p as int].0, s[i].0);
                    }
                }
            }
            None
        }
    }

    /// Ends staging: the configuration and every staged entry, in name
    /// order, ready to be written payloads first and index last.
    pub fn into_layout(self) -> (r: PakLayout)
        requires
            self.wf(),
        ensures
            r.version == self.spec_version(),
            r.mount_point@ == self.spec_mount_point(),
            r.path_hash_seed == self.spec_path_hash_seed(),
            sorted_by_name(entries_view(r.entries@)),
            entry_map(entries_view(r.entries@)) == self.staged(),
    {
        PakLayout {
            version: self.version,
            mount_point: self.mount_point,
            path_hash_seed: self.path_hash_seed,
            entries: self.data,
        }
    }
}

/// The same mapping staged twice, in any order of `set_entry` calls, is laid
/// out as the same sequence of entries: the writer's input, and so its output,
/// depends on the mapping alone.
pub proof fn lemma_layout_determined(a: Seq<(Seq<char>, Seq<u8>)>, b: Seq<(Seq<char>, Seq<u8>)>)
    requires
        sorted_by_name(a),
        sorted_by_name(b),
        entry_map(a) == entry_map(b),
    ensures
        a == b,
{
    lemma_contained(a, b);
    lemma_contained(b, a);
    lemma_same_prefix(a, b, if a.len() < b.len() { a.len() as int } else { b.len() as int });
    let n = if a.len() < b.len() { a.len() as int } else { b.len() as int };
    if a.len() > b.len() {
        let j = choose|j: int| 0 <= j < b.len() && b[j] == a[n];
        lemma_name_lt_irreflexive(a[n].0);
        assert(a[j] == b[j]);
        assert(name_lt(a[j].0, a[n].0));
    }
    if b.len() > a.len() {
        let j = choose|j: int| 0 <= j < a.len() && a[j] == b[n];
        lemma_name_lt_irreflexive(b[n].0);
        assert(a[j] == b[j]);
        assert(name_lt(b[j].0, b[n].0));
    }
    assert(a =~= b);
}

/// Every entry of `a` is an entry of `b` when both stand for one mapping.
proof fn lemma_contained(a: Seq<(Seq<char>, Seq<u8>)>, b: Seq<(Seq<char>, Seq<u8>)>)
    requires
        sorted_by_name(a),
        sorted_by_name(b),
        entry_map(a) == entry_map(b),
    ensures
        forall|i: int| 0 <= i < a.len() ==> b.contains(#[trigger] a[i]),
{
    assert forall|i: int| 0 <= i < a.len() implies b.contains(#[trigger] a[i]) by {
        lemma_entry_map_at(a, i);
        assert(entry_map(b).contains_key(a[i].0));
        let j = choose|j: int| 0 <= j < b.len() && b[j].0 == a[i].0;
        lemma_entry_map_at(b, j);
        assert(b[j] == a[i]);
    }
}

proof fn lemma_same_prefix(a: Seq<(Seq<char>, Seq<u8>)>, b: Seq<(Seq<char>, Seq<u8>)>, m: int)
    requires
        sorted_by_name(a),
        sorted_by_name(b),
        0 <= m <= a.len(),
        m <= b.len(),
        forall|i: int| 0 <= i < a.len() ==> b.contains(#[trigger] a[i]),
        forall|j: int| 0 <= j < b.len() ==> a.contains(#[trigger] b[j]),
    ensures
        forall|i: int| 0 <= i < m ==> #[trigger] a[i] == b[i],
    decreases m,
{
    if m > 0 {
        let n = m - 1;
        lemma_same_prefix(a, b, n);
        assert(b.contains(a[n]));
        let j = choose|j: int| 0 <= j < b.len() && b[j] == a[n];
        assert(a.contains(b[n]));
        let i = choose|i: int| 0 <= i < a.len() && a[i] == b[n];
        lemma_name_lt_irreflexive(a[n].0);
        lemma_name_lt_irreflexive(b[n].0);
        if j != n && i != n {
            if j < n {
                assert(a[j] == b[j]);
                assert(name_lt(a[j].0, a[n].0));
                assert(false);
            } else if i < n {
                assert(a[i] == b[i]);
                assert(name_lt(b[i].0, b[n].0));
                assert(false);
            } else {
                assert(name_lt(a[n].0, a[i].0));
                assert(name_lt(b[n].0, b[j].0));
                lemma_name_lt_transitive(a[n].0, a[i].0, a[n].0);
                assert(false);
            }
        }
        assert(a[n] == b[n]);
        assert forall|k: int| 0 <= k < m implies #[trigger] a[k] == b[k] by {
            if k < n {
                assert(a[k] == b[k]);
            }
        }
    }
}

/// Staging `x` and then `y` under one name leaves what staging `y` alone
/// leaves: a layout of that mapping holds `y` under the name.
pub proof fn lemma_last_write_wins(
    staged: Map<Seq<char>, Seq<u8>>,
    name: Seq<char>,
    x: Seq<u8>,
    y: Seq<u8>,
    layout: Seq<(Seq<char>, Seq<u8>)>,
)
    requires
        sorted_by_name(layout),
        entry_map(layout) == staged.insert(name, x).insert(name, y),
    ensures
        entry_map(layout) == staged.insert(name, y),
        layout.contains((name, y)),
{
    assert(staged.insert(name, x).insert(name, y) =~= staged.insert(name, y));
    assert(entry_map(layout).contains_key(name));
    assert(holds_name(layout, name));
    let i = choose|i: int| 0 <= i < layout.len() && layout[i].0 == name;
    lemma_entry_map_at(layout, i);
    assert(layout[i] == (name, y));
}

/// A layout of a staged mapping lists each staged name once, with its
/// payload, and no other name.
pub proof fn lemma_layout_holds_staged(
    staged: Map<Seq<char>, Seq<u8>>,
    layout: Seq<(Seq<char>, Seq<u8>)>,
)
    requires
        sorted_by_name(layout),
        entry_map(layout) == staged,
    ensures
        forall|name: Seq<char>| #[trigger]
            staged.contains_key(name) ==> layout.contains((name, staged[name])),
        forall|i: int| 0 <= i < layout.len() ==> #[trigger] staged.contains_key(layout[i].0),
        layout.map_values(|e: (Seq<char>, Seq<u8>)| e.0).to_set() == staged.dom(),
{
    assert forall|name: Seq<char>| #[trigger]
        staged.contains_key(name) implies layout.contains((name, staged[name])) by {
        let i = choose|i: int| 0 <= i < layout.len() && layout[i].0 == name;
        lemma_entry_map_at(layout, i);
        assert(layout[i] == (name, staged[name]));
    }
    assert forall|i: int| 0 <= i < layout.len() implies #[trigger] staged.contains_key(
        layout[i].0,
    ) by {
        lemma_entry_map_at(layout, i);
    }
    let names = layout.map_values(|e: (Seq<char>, Seq<u8>)| e.0);
    assert forall|name: Seq<char>| names.to_set().contains(name) == staged.dom().contains(name) by {
        if staged.contains_key(name) {
            let i = choose|i: int| 0 <= i < layout.len() && layout[i].0 == name;
            assert(names[i] == name);
        }
        if names.contains(name) {
            let i = choose|i: int| 0 <= i < names.len() && names[i] == name;
            lemma_entry_map_at(layout, i);
        }
    }
    assert(names.to_set() =~= staged.dom());
}

} // verus!
