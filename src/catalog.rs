//! The catalog of fonts that are both installed and usable by the terminal.

use vstd::prelude::*;
use vstd::string::StringExecFns;
use crate::utils::Utils;
use crate::sources::supported_of;
use crate::text::{
    chars_of, is_line, is_line_exec, lemma_text_le_antisym, lemma_text_le_total, lemma_text_le_trans, text_le, text_le_exec, string_of, string_views, strip_blanks, stripped};

verus! {

/// A font is usable by the terminal when its name, or its name without
/// whitespace, is among the names the terminal supports, and the name fits
/// on one line of the configuration file.
pub open spec fn compatible(font: Seq<char>, supported: Set<Seq<char>>) -> bool {
    is_line(font) && (supported.contains(font) || supported.contains(strip_blanks(font)))
}

/// The catalog computed from installed fonts: each usable font is entered
/// under its name without whitespace; where several share a key, the least
/// of them in code point order stands.
pub open spec fn catalog_of(installed: Seq<Seq<char>>, supported: Set<Seq<char>>) -> Map<
    Seq<char>,
    Seq<char>,
>
    decreases installed.len(),
{
    if installed.len() == 0 {
        Map::empty()
    } else {
        let m = catalog_of(installed.drop_last(), supported);
        let f = installed.last();
        let k = strip_blanks(f);
        if compatible(f, supported) && !(m.contains_key(k) && text_le(m[k], f)) {
            m.insert(k, f)
        } else {
            m
        }
    }
}

/// The map that a list of (key, name) pairs spells, a later pair winning.
pub open spec fn entries_map(s: Seq<(String, String)>) -> Map<Seq<char>, Seq<char>>
    decreases s.len(),
{
    if s.len() == 0 {
        Map::empty()
    } else {
        entries_map(s.drop_last()).insert(s.last().0@, s.last().1@)
    }
}

/// No key stands twice in a list of pairs.
pub open spec fn keys_unique(s: Seq<(String, String)>) -> bool {
    forall|i: int, j: int|
        0 <= i < s.len() && 0 <= j < s.len() && i != j ==> #[trigger] s[i].0@ != #[trigger] s[j].0@
}

proof fn lemma_entries_map(s: Seq<(String, String)>, k: Seq<char>)
    ensures
        entries_map(s).contains_key(k) <==> exists|i: int| 0 <= i < s.len() && #[trigger] s[i].0@ == k,
        keys_unique(s) ==> forall|i: int|
            0 <= i < s.len() && #[trigger] s[i].0@ == k ==> entries_map(s)[k] == s[i].1@,
    decreases s.len(),
{
    if s.len() > 0 {
        let init = s.drop_last();
        lemma_entries_map(init, k);
        if exists|i: int| 0 <= i < init.len() && #[trigger] init[i].0@ == k {
            let i = choose|i: int| 0 <= i < init.len() && #[trigger] init[i].0@ == k;
            assert(s[i].0@ == k);
        }
        if exists|i: int| 0 <= i < s.len() && #[trigger] s[i].0@ == k {
            let i = choose|i: int| 0 <= i < s.len() && #[trigger] s[i].0@ == k;
            if i < s.len() - 1 {
                assert(init[i].0@ == k);
            }
        }
        if keys_unique(s) {
            assert(keys_unique(init)) by {
                assert forall|i: int, j: int|
                    0 <= i < init.len() && 0 <= j < init.len() && i != j implies #[trigger] init[i].0@
                    != #[trigger] init[j].0@ by {
                    assert(init[i] == s[i] && init[j] == s[j]);
                }
            }
            assert forall|i: int| 0 <= i < s.len() && #[trigger] s[i].0@ == k implies entries_map(
                s,
            )[k] == s[i].1@ by {
                if i < s.len() - 1 {
                    assert(init[i] == s[i]);
                }
            }
        }
    }
}

proof fn lemma_update_at(
    before: Seq<(String, String)>,
    i: int,
    k: Seq<char>,
    v: Seq<char>,
    kk: Seq<char>,
)
    requires
        keys_unique(before),
        0 <= i < before.len(),
        before[i].0@ == k,
    ensures
        forall|p: (String, String)| p.0@ == k && p.1@ == v ==> {
            let ma = #[trigger] entries_map(before.update(i, p));
            let mb = entries_map(before).insert(k, v);
            &&& ma.contains_key(kk) == mb.contains_key(kk)
            &&& ma.contains_key(kk) ==> ma[kk] == mb[kk]
        },
{
    assert forall|p: (String, String)| p.0@ == k && p.1@ == v implies {
        let ma = #[trigger] entries_map(before.update(i, p));
        let mb = entries_map(before).insert(k, v);
        &&& ma.contains_key(kk) == mb.contains_key(kk)
        &&& ma.contains_key(kk) ==> ma[kk] == mb[kk]
    } by {
        let after = before.update(i, p);
        assert(keys_unique(after)) by {
            assert forall|a: int, b: int|
                0 <= a < after.len() && 0 <= b < after.len() && a != b implies #[trigger] after[a].0@
                != #[trigger] after[b].0@ by {
                assert(before[a].0@ != before[b].0@);
            }
        }
        lemma_entries_map(after, kk);
        lemma_entries_map(before, kk);
        if kk != k {
            if exists|j: int| 0 <= j < after.len() && #[trigger] after[j].0@ == kk {
                let j = choose|j: int| 0 <= j < after.len() && #[trigger] after[j].0@ == kk;
                assert(before[j] == after[j]);
            }
            if exists|j: int| 0 <= j < before.len() && #[trigger] before[j].0@ == kk {
                let j = choose|j: int| 0 <= j < before.len() && #[trigger] before[j].0@ == kk;
                assert(before[j] == after[j]);
            }
        } else {
            assert(after[i].0@ == kk);
        }
    }
}

/// The compatible fonts, by normalized key (the name without whitespace).
pub struct FontCatalog {
    entries: Vec<(String, String)>,
}

impl View for FontCatalog {
    type V = Map<Seq<char>, Seq<char>>;

    closed spec fn view(&self) -> Map<Seq<char>, Seq<char>> {
        entries_map(self.entries@)
    }
}

impl FontCatalog {
    pub closed spec fn wf(&self) -> bool {
        &&& keys_unique(self.entries@)
        &&& forall|i: int| 0 <= i < self.entries@.len() ==> is_line(#[trigger] self.entries@[i].1@)
    }

    /// Every display name of a well-formed catalog fits on one line.
    pub proof fn lemma_names_are_lines(&self, k: Seq<char>)
        requires
            self.wf(),
            self@.contains_key(k),
        ensures
            is_line(self@[k]),
    {
        lemma_entries_map(self.entries@, k);
        let j = choose|j: int| 0 <= j < self.entries@.len() && #[trigger] self.entries@[j].0@ == k;
        assert(is_line(self.entries@[j].1@));
    }

    /// An empty catalog.
    pub fn new() -> (r: FontCatalog)
        ensures
            r.wf(),
            r@ == Map::<Seq<char>, Seq<char>>::empty(),
    {
        FontCatalog { entries: Vec::new() }
    }

    /// Enters `name` under `key`, replacing what stood there.
    pub fn insert(&mut self, key: String, name: String)
        requires
            old(self).wf(),
            is_line(name@),
        ensures
            final(self).wf(),
            final(self)@ == old(self)@.insert(key@, name@),
    {
        let ghost k = key@;
        let ghost v = name@;
        let mut i: usize = 0;
        while i < self.entries.len()
            invariant
                self.wf(),
                self.entries@ == old(self).entries@,
                k == key@,
                v == name@,
                is_line(v),
                i <= self.entries@.len(),
                forall|j: int| 0 <= j < i ==> #[trigger] self.entries@[j].0@ != k,
            decreases self.entries.len() - i,
        {
            if self.entries[i].0.eq(&key) {
                let ghost before = self.entries@;
                self.entries.set(i, (key, name));
                proof {
                    let after = self.entries@;
                    assert forall|j: int| 0 <= j < after.len() implies is_line(#[trigger] after[j].1@) by {
                        if j != i {
                            assert(after[j] == before[j]);
                        }
                    }
                    assert(keys_unique(after)) by {
                        assert forall|a: int, b: int|
                            0 <= a < after.len() && 0 <= b < after.len() && a != b implies #[trigger] after[a].0@
                            != #[trigger] after[b].0@ by {
                            assert(before[a].0@ != before[b].0@);
                        }
                    }
                    let ma = entries_map(after);
                    let mb = entries_map(before).insert(k, v);
                    assert forall|kk: Seq<char>| #[trigger] ma.dom().contains(kk) == mb.dom().contains(kk) by {
                        lemma_update_at(before, i as int, k, v, kk);
                    }
                    assert forall|kk: Seq<char>| ma.dom().contains(kk) implies #[trigger] ma[kk] == mb[kk] by {
                        lemma_update_at(before, i as int, k, v, kk);
                    }
                    assert(ma.dom() =~= mb.dom());
                    assert(ma =~= mb);
                }
                return;
            }
            assert(self.entries@[i as int].0@ != k);
            i = i + 1;
        }
        let ghost before = self.entries@;
        self.entries.push((key, name));
        proof {
            let after = self.entries@;
            assert(after.drop_last() =~= before);
            assert forall|j: int| 0 <= j < after.len() implies is_line(#[trigger] after[j].1@) by {
                if j < before.len() {
                    assert(after[j] == before[j]);
                }
            }
            assert(keys_unique(after)) by {
                assert forall|a: int, b: int|
                    0 <= a < after.len() && 0 <= b < after.len() && a != b implies #[trigger] after[a].0@
                    != #[trigger] after[b].0@ by {
                    if a < before.len() && b < before.len() {
                        assert(before[a] == after[a] && before[b] == after[b]);
                    } else if a < before.len() {
                        assert(before[a] == after[a]);
                    } else {
                        assert(before[b] == after[b]);
                    }
                }
            }
        }
    }

    /// The display name entered under `key`, if any.
    pub fn resolve(&self, key: &str) -> (r: Option<String>)
        requires
            self.wf(),
        ensures
            r is Some <==> self@.contains_key(key@),
            r matches Some(n) ==> n@ == self@[key@],
    {
        let wanted = String::from_str(key);
        let mut i: usize = 0;
        proof {
            lemma_entries_map(self.entries@, key@);
        }
        while i < self.entries.len()
            invariant
                self.wf(),
                wanted@ == key@,
                i <= self.entries@.len(),
                forall|j: int| 0 <= j < i ==> #[trigger] self.entries@[j].0@ != key@,
            decreases self.entries.len() - i,
        {
            if self.entries[i].0.eq(&wanted) {
                proof {
                    lemma_entries_map(self.entries@, key@);
                }
                return Some(self.entries[i].1.clone());
            }
            assert(self.entries@[i as int].0@ != key@);
            i = i + 1;
        }
        None
    }

    /// A copy of the catalog.
    pub fn duplicate(&self) -> (r: FontCatalog)
        requires
            self.wf(),
        ensures
            r.wf(),
            r@ == self@,
    {
        let mut entries: Vec<(String, String)> = Vec::new();
        let mut i: usize = 0;
        while i < self.entries.len()
            invariant
                i <= self.entries@.len(),
                entries@ == self.entries@.take(i as int),
            decreases self.entries.len() - i,
        {
            let k = self.entries[i].0.clone();
            let v = self.entries[i].1.clone();
            entries.push((k, v));
            i = i + 1;
            assert(entries@ =~= self.entries@.take(i as int));
        }
        assert(self.entries@.take(self.entries@.len() as int) =~= self.entries@);
        FontCatalog { entries }
    }

    /// The keys, in no particular order; each once.
    pub fn keys(&self) -> (r: Vec<String>)
        requires
            self.wf(),
        ensures
            string_views(r@).to_set() == self@.dom(),
            crate::sources::distinct(string_views(r@)),
    {
        let mut r: Vec<String> = Vec::new();
        let mut i: usize = 0;
        while i < self.entries.len()
            invariant
                i <= self.entries@.len(),
                r@.len() == i,
                forall|j: int| 0 <= j < i ==> #[trigger] r@[j]@ == self.entries@[j].0@,
            decreases self.entries.len() - i,
        {
            r.push(self.entries[i].0.clone());
            i = i + 1;
        }
        proof {
            let e = self.entries@;
            let sv = string_views(r@);
            assert forall|k: Seq<char>| sv.to_set().contains(k) == self@.dom().contains(k) by {
                lemma_entries_map(e, k);
                if sv.to_set().contains(k) {
                    assert(sv.contains(k));
                    let i = choose|i: int| 0 <= i < sv.len() && sv[i] == k;
                    assert(e[i].0@ == k);
                }
                if self@.dom().contains(k) {
                    let j = choose|j: int| 0 <= j < e.len() && #[trigger] e[j].0@ == k;
                    assert(sv[j] == k);
                }
            }
            assert(sv.to_set() =~= self@.dom());
            assert forall|i: int, j: int| 0 <= i < j < sv.len() implies sv[i] != sv[j] by {
                assert(e[i].0@ != e[j].0@);
            }
        }
        r
    }

    /// The display names, in no particular order; each once.
    pub fn names(&self) -> (r: Vec<String>)
        requires
            self.wf(),
        ensures
            string_views(r@).to_set() == self@.values(),
    {
        let mut r: Vec<String> = Vec::new();
        let mut i: usize = 0;
        while i < self.entries.len()
            invariant
                i <= self.entries@.len(),
                r@.len() == i,
                forall|j: int| 0 <= j < i ==> #[trigger] r@[j]@ == self.entries@[j].1@,
            decreases self.entries.len() - i,
        {
            r.push(self.entries[i].1.clone());
            i = i + 1;
        }
        proof {
            let e = self.entries@;
            let sv = string_views(r@);
            assert forall|v: Seq<char>| sv.to_set().contains(v) == self@.values().contains(v) by {
                if sv.to_set().contains(v) {
                    assert(sv.contains(v));
                    let i = choose|i: int| 0 <= i < sv.len() && sv[i] == v;
                    lemma_entries_map(e, e[i].0@);
                    assert(self@.contains_key(e[i].0@) && self@[e[i].0@] == v);
                }
                if self@.values().contains(v) {
                    let k = choose|k: Seq<char>| #[trigger] self@.contains_key(k) && self@[k] == v;
                    lemma_entries_map(e, k);
                    let j = choose|j: int| 0 <= j < e.len() && #[trigger] e[j].0@ == k;
                    assert(sv[j] == v);
                }
            }
            assert(sv.to_set() =~= self@.values());
        }
        r
    }
}

/// Whether `s` is among `v`.
pub fn contains_text(v: &Vec<String>, s: &String) -> (r: bool)
    ensures
        r == string_views(v@).contains(s@),
{
    let mut i: usize = 0;
    while i < v.len()
        invariant
            i <= v@.len(),
            forall|j: int| 0 <= j < i ==> #[trigger] v@[j]@ != s@,
        decreases v.len() - i,
    {
        if v[i].eq(s) {
            assert(string_views(v@)[i as int] == s@);
            return true;
        }
        i = i + 1;
    }
    proof {
        if string_views(v@).contains(s@) {
            let j = choose|j: int| 0 <= j < v@.len() && string_views(v@)[j] == s@;
            assert(v@[j]@ == s@);
        }
    }
    false
}

/// The catalog of the installed fonts that the terminal supports.
pub fn compute_catalog(installed: &Vec<String>, supported: &Vec<String>) -> (r: FontCatalog)
    ensures
        r.wf(),
        r@ == catalog_of(string_views(installed@), string_views(supported@).to_set()),
{
    let ghost sup = string_views(supported@).to_set();
    let mut cat = FontCatalog::new();
    let mut i: usize = 0;
    assert(string_views(installed@).take(0) =~= Seq::<Seq<char>>::empty());
    while i < installed.len()
        invariant
            i <= installed@.len(),
            sup == string_views(supported@).to_set(),
            cat.wf(),
            cat@ == catalog_of(string_views(installed@).take(i as int), sup),
        decreases installed.len() - i,
    {
        let font = &installed[i];
        let key = string_of(stripped(chars_of(font.as_str()).as_slice()).as_slice());
        assert(string_views(installed@).take(i + 1).drop_last() =~= string_views(installed@).take(i as int));
        assert(string_views(installed@).take(i + 1).last() == font@);
        let usable = is_line_exec(chars_of(font.as_str()).as_slice()) && (contains_text(supported, font)
            || contains_text(supported, &key));
        if usable {
            let keep = match cat.resolve(key.as_str()) {
                Some(present) => text_le_exec(
                    chars_of(present.as_str()).as_slice(),
                    chars_of(font.as_str()).as_slice(),
                ),
                None => false,
            };
            if !keep {
                cat.insert(key, font.clone());
            }
        }
        i = i + 1;
    }
    assert(string_views(installed@).take(installed@.len() as int) =~= string_views(installed@));
    cat
}

/// Installed font `i` is usable and stands under key `k`.
pub open spec fn candidate(installed: Seq<Seq<char>>, supported: Set<Seq<char>>, k: Seq<char>, i: int) -> bool {
    0 <= i < installed.len() && compatible(installed[i], supported) && strip_blanks(installed[i]) == k
}

proof fn lemma_catalog_entries(installed: Seq<Seq<char>>, supported: Set<Seq<char>>, k: Seq<char>)
    ensures
        catalog_of(installed, supported).contains_key(k) <==> exists|i: int|
            #[trigger] candidate(installed, supported, k, i),
        catalog_of(installed, supported).contains_key(k) ==> exists|i: int|
            #[trigger] candidate(installed, supported, k, i) && catalog_of(installed, supported)[k]
                == installed[i],
        catalog_of(installed, supported).contains_key(k) ==> forall|i: int|
            #[trigger] candidate(installed, supported, k, i) ==> text_le(
                catalog_of(installed, supported)[k],
                installed[i],
            ),
    decreases installed.len(),
{
    if installed.len() > 0 {
        let init = installed.drop_last();
        let n = installed.len() - 1;
        let f = installed.last();
        let m0 = catalog_of(init, supported);
        let m = catalog_of(installed, supported);
        lemma_catalog_entries(init, supported, k);
        assert forall|i: int| 0 <= i < n implies (candidate(init, supported, k, i) == candidate(
            installed,
            supported,
            k,
            i,
        )) by {
            assert(init[i] == installed[i]);
        }
        assert(installed[n] == f);
        if exists|i: int| #[trigger] candidate(init, supported, k, i) {
            let i = choose|i: int| #[trigger] candidate(init, supported, k, i);
            assert(candidate(installed, supported, k, i));
        }
        if exists|i: int| #[trigger] candidate(installed, supported, k, i) {
            let i = choose|i: int| #[trigger] candidate(installed, supported, k, i);
            if i < n {
                assert(candidate(init, supported, k, i));
            }
        }
        if m0.contains_key(k) {
            let w = choose|i: int| #[trigger] candidate(init, supported, k, i) && m0[k] == init[i];
            assert(candidate(installed, supported, k, w));
        }
        if m.contains_key(k) {
            if m[k] == m0[k] && m0.contains_key(k) {
                let w = choose|i: int| #[trigger] candidate(init, supported, k, i) && m0[k] == init[i];
                assert(candidate(installed, supported, k, w) && m[k] == installed[w]);
            } else {
                assert(candidate(installed, supported, k, n) && m[k] == installed[n]);
            }
            assert forall|i: int| #[trigger] candidate(installed, supported, k, i) implies text_le(
                m[k],
                installed[i],
            ) by {
                let ins = compatible(f, supported) && !(m0.contains_key(strip_blanks(f)) && text_le(
                    m0[strip_blanks(f)],
                    f,
                ));
                if i < n {
                    assert(candidate(init, supported, k, i));
                    if ins && strip_blanks(f) == k {
                        lemma_text_le_total(m0[k], f);
                        lemma_text_le_trans(f, m0[k], installed[i]);
                    }
                } else {
                    if !ins {
                        assert(m0.contains_key(k) && text_le(m0[k], f));
                    } else {
                        lemma_text_le_refl(f);
                    }
                }
            }
        }
    }
}

proof fn lemma_text_le_refl(a: Seq<char>)
    ensures
        text_le(a, a),
{
    lemma_text_le_total(a, a);
}

/// The catalog does not depend on the order in which installed fonts are
/// listed.
pub proof fn lemma_catalog_order_independent(
    a: Seq<Seq<char>>,
    b: Seq<Seq<char>>,
    supported: Set<Seq<char>>,
)
    requires
        a.to_multiset() == b.to_multiset(),
    ensures
        catalog_of(a, supported) == catalog_of(b, supported),
{
    broadcast use vstd::seq_lib::group_to_multiset_ensures;

    let ma = catalog_of(a, supported);
    let mb = catalog_of(b, supported);
    assert forall|x: Seq<char>| a.contains(x) <==> b.contains(x) by {
        assert(a.contains(x) <==> a.to_multiset().count(x) > 0);
        assert(b.contains(x) <==> b.to_multiset().count(x) > 0);
    }
    assert forall|k: Seq<char>, i: int| #[trigger] candidate(a, supported, k, i) implies exists|j: int|
        #[trigger] candidate(b, supported, k, j) && b[j] == a[i] by {
        assert(a.contains(a[i]));
        let j = choose|j: int| 0 <= j < b.len() && b[j] == a[i];
        assert(candidate(b, supported, k, j));
    }
    assert forall|k: Seq<char>, j: int| #[trigger] candidate(b, supported, k, j) implies exists|i: int|
        #[trigger] candidate(a, supported, k, i) && a[i] == b[j] by {
        assert(b.contains(b[j]));
        let i = choose|i: int| 0 <= i < a.len() && a[i] == b[j];
        assert(candidate(a, supported, k, i));
    }
    assert forall|k: Seq<char>| #[trigger] ma.contains_key(k) == mb.contains_key(k) by {
        lemma_catalog_entries(a, supported, k);
        lemma_catalog_entries(b, supported, k);
        if ma.contains_key(k) {
            let i = choose|i: int| #[trigger] candidate(a, supported, k, i);
            let j = choose|j: int| #[trigger] candidate(b, supported, k, j) && b[j] == a[i];
        }
        if mb.contains_key(k) {
            let j = choose|j: int| #[trigger] candidate(b, supported, k, j);
            let i = choose|i: int| #[trigger] candidate(a, supported, k, i) && a[i] == b[j];
        }
    }
    assert forall|k: Seq<char>| ma.contains_key(k) implies #[trigger] ma[k] == mb[k] by {
        lemma_catalog_entries(a, supported, k);
        lemma_catalog_entries(b, supported, k);
        let i = choose|i: int| #[trigger] candidate(a, supported, k, i) && ma[k] == a[i];
        let j = choose|j: int| #[trigger] candidate(b, supported, k, j) && mb[k] == b[j];
        let j2 = choose|j2: int| #[trigger] candidate(b, supported, k, j2) && b[j2] == a[i];
        let i2 = choose|i2: int| #[trigger] candidate(a, supported, k, i2) && a[i2] == b[j];
        assert(text_le(ma[k], a[i2]));
        assert(text_le(mb[k], b[j2]));
        lemma_text_le_antisym(ma[k], mb[k]);
    }
    assert(ma.dom() =~= mb.dom());
    assert(ma =~= mb);
}

/// The memoized catalog: computed on first use, kept until invalidated.
pub struct FontResolver {
    cache: Option<FontCatalog>,
    sources: Ghost<(Seq<Seq<char>>, Set<Seq<char>>)>,
}

/// Every entry of a catalog stands under its name without whitespace, and
/// its name is installed and usable by the terminal.
pub open spec fn catalog_shape(
    m: Map<Seq<char>, Seq<char>>,
    installed: Seq<Seq<char>>,
    supported: Set<Seq<char>>,
) -> bool {
    forall|k: Seq<char>|
        #[trigger] m.contains_key(k) ==> k == strip_blanks(m[k]) && compatible(m[k], supported)
            && installed.contains(m[k])
}

/// A computed catalog has the shape of the catalog of its sources.
pub proof fn lemma_catalog_shape(installed: Seq<Seq<char>>, supported: Set<Seq<char>>)
    ensures
        catalog_shape(catalog_of(installed, supported), installed, supported),
{
    let m = catalog_of(installed, supported);
    assert forall|k: Seq<char>| #[trigger] m.contains_key(k) implies k == strip_blanks(m[k])
        && compatible(m[k], supported) && installed.contains(m[k]) by {
        lemma_catalog_entries(installed, supported, k);
        let i = choose|i: int| #[trigger] candidate(installed, supported, k, i) && m[k] == installed[i];
        assert(installed.contains(installed[i]));
    }
}

impl FontResolver {
    pub closed spec fn wf(&self) -> bool {
        self.cache matches Some(c) ==> c.wf() && c@ == catalog_of(self.sources@.0, self.sources@.1)
    }

    /// The installed fonts and the supported names the held catalog was
    /// computed from.
    pub closed spec fn sources(&self) -> (Seq<Seq<char>>, Set<Seq<char>>) {
        self.sources@
    }

    /// The held catalog is the catalog of its sources, and so has its shape.
    pub proof fn lemma_cached_shape(&self)
        requires
            self.wf(),
        ensures
            self.cached() matches Some(m) ==> m == catalog_of(self.sources().0, self.sources().1)
                && catalog_shape(m, self.sources().0, self.sources().1),
    {
        lemma_catalog_shape(self.sources().0, self.sources().1);
    }

    /// The catalog held, if it was computed.
    pub closed spec fn cached(&self) -> Option<Map<Seq<char>, Seq<char>>> {
        match self.cache {
            Some(c) => Some(c@),
            None => None,
        }
    }

    /// A resolver that has computed nothing yet.
    pub fn new() -> (r: FontResolver)
        ensures
            r.wf(),
            r.cached() is None,
    {
        FontResolver { cache: None, sources: Ghost((Seq::empty(), Set::empty())) }
    }

    /// The computed catalog, if any.
    pub fn catalog_ref(&self) -> (r: Option<&FontCatalog>)
        requires
            self.wf(),
        ensures
            r is Some <==> self.cached() is Some,
            r matches Some(c) ==> c.wf() && self.cached() == Some(c@),
    {
        match &self.cache {
            Some(c) => Some(c),
            None => None,
        }
    }

    /// Whether the catalog was computed.
    pub fn is_cached(&self) -> (r: bool)
        ensures
            r == self.cached() is Some,
    {
        self.cache.is_some()
    }

    /// Forgets the computed catalog.
    pub fn invalidate(&mut self)
        ensures
            final(self).wf(),
            final(self).cached() is None,
    {
        self.cache = None;
    }

    /// The display name under `key` in the computed catalog; none where the
    /// catalog was not computed or has no such key.
    pub fn resolve(&self, key: &str) -> (r: Option<String>)
        requires
            self.wf(),
        ensures
            r is Some <==> (self.cached() matches Some(m) && m.contains_key(key@)),
            r matches Some(n) ==> n@ == self.cached()->0[key@],
    {
        match &self.cache {
            Some(c) => c.resolve(key),
            None => None,
        }
    }
}

impl Utils {
    /// The catalog: the one computed before, or else the one of these fonts,
    /// which is kept from now on.
    pub fn get_cached_installed_fonts(
        resolver: &mut FontResolver,
        installed: &Vec<String>, supported: &Vec<String>) -> (r: FontCatalog)
        requires
            old(resolver).wf(),
        ensures
            final(resolver).wf(),
            r.wf(),
            old(resolver).cached() matches Some(m) ==> final(resolver).cached() == old(resolver).cached() && r@ == m,
            old(resolver).cached() is None ==> r@ == catalog_of(string_views(installed@), string_views(supported@).to_set())
                && final(resolver).cached() == Some(r@) && final(resolver).sources() == (
                string_views(installed@),
                string_views(supported@).to_set(),
            ),
            final(resolver).cached() == Some(r@),
            catalog_shape(r@, final(resolver).sources().0, final(resolver).sources().1),
    {
        proof {
            lemma_catalog_shape(string_views(installed@), string_views(supported@).to_set());
            lemma_catalog_shape(resolver.sources@.0, resolver.sources@.1);
        }
        match &resolver.cache {
            Some(c) => c.duplicate(),
            None => {
                let c = compute_catalog(installed, supported);
                let kept = c.duplicate();
                resolver.cache = Some(kept);
                resolver.sources = Ghost((string_views(installed@), string_views(supported@).to_set()));
                c
            }
        }
    }
}

/// A catalog computed against no supported fonts is empty.
proof fn lemma_catalog_of_none(installed: Seq<Seq<char>>, supported: Set<Seq<char>>)
    requires
        supported == Set::<Seq<char>>::empty(),
    ensures
        catalog_of(installed, supported) == Map::<Seq<char>, Seq<char>>::empty(),
    decreases installed.len(),
{
    if installed.len() > 0 {
        lemma_catalog_of_none(installed.drop_last(), supported);
    }
}

impl Utils {
    /// The catalog of the installed fonts that the terminal supports, the
    /// supported ones read from the terminal's introspection output.
    pub fn compare_fonts_with_kitty_list_fonts(installed: Vec<String>, kitty_output: &str) -> (r:
        FontCatalog)
        ensures
            r.wf(),
            r@ == catalog_of(string_views(installed@), supported_of(kitty_output@)),
            kitty_output@.len() == 0 ==> r@ == Map::<Seq<char>, Seq<char>>::empty(),
    {
        let supported = Utils::extract_fonts_from_json(kitty_output);
        let r = compute_catalog(&installed, &supported);
        proof {
            if kitty_output@.len() == 0 {
                assert(string_views(supported@).to_set() =~= Set::<Seq<char>>::empty());
                lemma_catalog_of_none(string_views(installed@), string_views(supported@).to_set());
            }
        }
        r
    }
}

} // verus!
