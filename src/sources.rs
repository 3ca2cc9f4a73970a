//! The two font enumerations: the system's installed fonts and the fonts
//! the terminal can use, taken from the text the external commands print.

use vstd::prelude::*;
use vstd::string::StringExecFns;
use serde_json::Value;
use crate::catalog::contains_text;
use crate::utils::Utils;
use crate::text::{chars_of, slice_chars, split_lines, split_text, string_of, string_views, views};

verus! {

#[verifier::external_type_specification]
#[verifier::external_body]
pub struct ExValue(serde_json::Value);

/// The position of the first `','` in `s`, or its length if there is none.
pub open spec fn comma_pos(s: Seq<char>) -> nat
    decreases s.len(),
{
    if s.len() == 0 || s[0] == ',' {
        0
    } else {
        1 + comma_pos(s.drop_first())
    }
}

/// The font family a line of the enumerator names: what precedes the first comma.
pub open spec fn first_field(line: Seq<char>) -> Seq<char> {
    line.take(comma_pos(line) as int)
}

/// `s` with each repeated element after its first occurrence left out.
pub open spec fn dedup(s: Seq<Seq<char>>) -> Seq<Seq<char>>
    decreases s.len(),
{
    if s.len() == 0 {
        s
    } else {
        let d = dedup(s.drop_last());
        if d.contains(s.last()) {
            d
        } else {
            d.push(s.last())
        }
    }
}

/// The non-empty family names of the lines, in order.
pub open spec fn family_names(ls: Seq<Seq<char>>) -> Seq<Seq<char>>
    decreases ls.len(),
{
    if ls.len() == 0 {
        Seq::empty()
    } else if first_field(ls.last()).len() == 0 {
        family_names(ls.drop_last())
    } else {
        family_names(ls.drop_last()).push(first_field(ls.last()))
    }
}

/// The installed fonts that an enumerator's output lists: the first
/// comma-separated field of each line, empty ones left out, each name once,
/// in the order of first appearance.
pub open spec fn installed_of(output: Seq<char>) -> Seq<Seq<char>> {
    dedup(family_names(split_lines(output)))
}

/// Whether no element stands twice.
pub open spec fn distinct(s: Seq<Seq<char>>) -> bool {
    forall|i: int, j: int| 0 <= i < j < s.len() ==> s[i] != s[j]
}

proof fn lemma_dedup_distinct(s: Seq<Seq<char>>)
    ensures
        distinct(dedup(s)),
        forall|x: Seq<char>| dedup(s).contains(x) <==> s.contains(x),
    decreases s.len(),
{
    if s.len() > 0 {
        let init = s.drop_last();
        let d = dedup(init);
        lemma_dedup_distinct(init);
        assert forall|x: Seq<char>| dedup(s).contains(x) <==> s.contains(x) by {
            if s.contains(x) {
                let i = choose|i: int| 0 <= i < s.len() && s[i] == x;
                if i < s.len() - 1 {
                    assert(init[i] == x);
                    assert(init.contains(x));
                }
            }
            if init.contains(x) {
                let j = choose|j: int| 0 <= j < init.len() && init[j] == x;
                assert(s[j] == x);
            }
            assert(s[s.len() - 1] == s.last());
            if !d.contains(s.last()) {
                assert(d.push(s.last())[d.len() as int] == s.last());
                if d.push(s.last()).contains(x) {
                    let j = choose|j: int| 0 <= j < d.len() + 1 && d.push(s.last())[j] == x;
                    if j < d.len() {
                        assert(d[j] == x);
                    }
                }
                if d.contains(x) {
                    let j = choose|j: int| 0 <= j < d.len() && d[j] == x;
                    assert(d.push(s.last())[j] == x);
                }
            }
        }
        if !d.contains(s.last()) {
            let e = d.push(s.last());
            assert forall|i: int, j: int| 0 <= i < j < e.len() implies e[i] != e[j] by {
                if j == d.len() {
                    assert(d[i] == e[i]);
                } else {
                    assert(d[i] == e[i] && d[j] == e[j]);
                }
            }
        }
    }
}

/// The first comma-separated field of `line`.
fn first_field_of(line: &[char]) -> (r: Vec<char>)
    ensures
        r@ == first_field(line@),
{
    let mut k: usize = 0;
    assert(line@.skip(0) =~= line@);
    while k < line.len() && line[k] != ','
        invariant
            k <= line@.len(),
            comma_pos(line@) == k + comma_pos(line@.skip(k as int)),
        decreases line.len() - k,
    {
        assert(line@.skip(k as int).drop_first() =~= line@.skip(k + 1));
        k = k + 1;
    }
    assert(comma_pos(line@) == k) by {
        if k < line@.len() {
            assert(line@.skip(k as int)[0] == ',');
        }
    }
    slice_chars(line, 0, k)
}

impl Utils {
/// The installed fonts that the font enumerator's output lists.
pub fn list_installed_fonts(output: &str) -> (r: Vec<String>)
    ensures
        string_views(r@) == installed_of(output@),
        distinct(string_views(r@)),
{
    let cs = chars_of(output);
    let ls = split_text(cs.as_slice());
    let ghost orig = views(ls@);
    let mut r: Vec<String> = Vec::new();
    let mut i: usize = 0;
    assert(orig.take(0) =~= Seq::<Seq<char>>::empty());
    while i < ls.len()
        invariant
            i <= ls@.len(),
            views(ls@) == orig,
            orig == split_lines(output@),
            string_views(r@) == dedup(family_names(orig.take(i as int))),
        decreases ls.len() - i,
    {
        assert(orig.take(i + 1).drop_last() =~= orig.take(i as int));
        assert(orig.take(i + 1).last() == ls@[i as int]@);
        let name = first_field_of(ls[i].as_slice());
        let ghost fi = family_names(orig.take(i as int));
        let ghost fn1 = family_names(orig.take(i + 1));
        assert(name@.len() == 0 ==> fn1 == fi);
        assert(name@.len() > 0 ==> fn1 == fi.push(name@));
        assert(fi.push(name@).drop_last() =~= fi);
        if name.len() > 0 {
            let s = string_of(name.as_slice());
            if !contains_text(&r, &s) {
                let ghost before = string_views(r@);
                let ghost sv = s@;
                r.push(s);
                assert(string_views(r@) =~= before.push(sv));
            }
        }
        i = i + 1;
    }
    assert(orig.take(ls@.len() as int) =~= orig);
    proof {
        lemma_dedup_distinct(family_names(orig));
    }
    r
}

}

/// A JSON document, as plain values. Numbers keep their text.
pub enum Json {
    Null,
    Bool(bool),
    Number(String),
    Str(String),
    Array(Vec<Json>),
    Object(Vec<(String, Json)>),
}

/// The document that `serde_json::from_str` reads from a text.
pub uninterp spec fn json_doc(text: Seq<char>) -> Option<Json>;

/// Relies on `serde_json::from_str`: the document a text holds, which
/// depends on the text alone; empty text holds none.
#[verifier::external_body]
fn parse_json(text: &str) -> (r: Option<Json>)
    ensures
        r == json_doc(text@),
        text@.len() == 0 ==> r is None,
{
    match serde_json::from_str::<Value>(text) {
        Ok(v) => Some(json_of(v)),
        Err(_) => None,
    }
}

/// Relies on the variants of `serde_json::Value`: the same document, each
/// value moved into the variant of the same name.
#[verifier::external_body]
fn json_of(v: Value) -> (r: Json) {
    match v {
        Value::Null => Json::Null,
        Value::Bool(b) => Json::Bool(b),
        Value::Number(n) => Json::Number(n.to_string()),
        Value::String(s) => Json::Str(s),
        Value::Array(items) => Json::Array(items.into_iter().map(json_of).collect()),
        Value::Object(ms) => Json::Object(ms.into_iter().map(|(k, m)| (k, json_of(m))).collect()),
    }
}

/// The value of the first member named `key`.
pub open spec fn member(ms: Seq<(String, Json)>, key: Seq<char>) -> Option<Json>
    decreases ms.len(),
{
    if ms.len() == 0 {
        None
    } else {
        match member(ms.drop_last(), key) {
            Some(v) => Some(v),
            None => if ms.last().0@ == key {
                Some(ms.last().1)
            } else {
                None
            },
        }
    }
}

/// The `family` string of an object, if it has one.
pub open spec fn family_of_item(item: Json) -> Option<Seq<char>> {
    match item {
        Json::Object(fs) => match member(fs@, "family"@) {
            Some(Json::Str(s)) => Some(s@),
            _ => None,
        },
        _ => None,
    }
}

/// The `family` strings of the objects among `items`.
pub open spec fn item_families(items: Seq<Json>) -> Set<Seq<char>>
    decreases items.len(),
{
    if items.len() == 0 {
        Set::empty()
    } else {
        let rest = item_families(items.drop_last());
        match family_of_item(items.last()) {
            Some(s) => rest.insert(s),
            None => rest,
        }
    }
}

/// The `family` strings in the arrays among the members `groups`.
pub open spec fn group_families(groups: Seq<(String, Json)>) -> Set<Seq<char>>
    decreases groups.len(),
{
    if groups.len() == 0 {
        Set::empty()
    } else {
        let rest = group_families(groups.drop_last());
        match groups.last().1 {
            Json::Array(items) => rest + item_families(items@),
            _ => rest,
        }
    }
}

/// The family names a document lists: each `family` string of the objects
/// in the arrays under its `family_map` object; none for another shape.
pub open spec fn families_in(d: Json) -> Set<Seq<char>> {
    match d {
        Json::Object(ms) => match member(ms@, "family_map"@) {
            Some(Json::Object(groups)) => group_families(groups@),
            _ => Set::empty(),
        },
        _ => Set::empty(),
    }
}

/// The family names the terminal's introspection output lists; none where
/// it is no JSON document.
pub open spec fn supported_of(text: Seq<char>) -> Set<Seq<char>> {
    match json_doc(text) {
        Some(d) => families_in(d),
        None => Set::empty(),
    }
}

/// The first member named `key`.
fn find_member<'a>(ms: &'a Vec<(String, Json)>, key: &str) -> (r: Option<&'a Json>)
    ensures
        r matches Some(v) ==> member(ms@, key@) == Some(*v),
        r is None ==> member(ms@, key@) is None,
{
    let wanted = String::from_str(key);
    let mut i: usize = 0;
    assert(ms@.take(0) =~= Seq::<(String, Json)>::empty());
    while i < ms.len()
        invariant
            i <= ms@.len(),
            wanted@ == key@,
            member(ms@.take(i as int), key@) is None,
        decreases ms.len() - i,
    {
        assert(ms@.take(i + 1).drop_last() =~= ms@.take(i as int));
        if ms[i].0.eq(&wanted) {
            proof {
                lemma_member_prefix(ms@, key@, i as int);
            }
            return Some(&ms[i].1);
        }
        i = i + 1;
    }
    assert(ms@.take(ms@.len() as int) =~= ms@);
    None
}

proof fn lemma_member_prefix(ms: Seq<(String, Json)>, key: Seq<char>, i: int)
    requires
        0 <= i < ms.len(),
        member(ms.take(i), key) is None,
        ms[i].0@ == key,
    ensures
        member(ms, key) == Some(ms[i].1),
    decreases ms.len(),
{
    if i == ms.len() - 1 {
        assert(ms.drop_last() =~= ms.take(i));
    } else {
        assert(ms.drop_last().take(i) =~= ms.take(i));
        lemma_member_prefix(ms.drop_last(), key, i);
    }
}

/// Adds `name` to `r` unless it is there.
fn add_name(r: &mut Vec<String>, name: &String)
    requires
        distinct(string_views(old(r)@)),
    ensures
        distinct(string_views(final(r)@)),
        string_views(final(r)@).to_set() == string_views(old(r)@).to_set().insert(name@),
{
    let ghost before = string_views(r@);
    if !contains_text(r, name) {
        r.push(name.clone());
        assert(string_views(r@) =~= before.push(name@));
        assert(string_views(r@).to_set() =~= before.to_set().insert(name@)) by {
            assert forall|x: Seq<char>| string_views(r@).contains(x) == before.to_set().insert(name@).contains(x) by {
                if string_views(r@).contains(x) && x != name@ {
                    let q = choose|q: int| 0 <= q < string_views(r@).len() && string_views(r@)[q] == x;
                    assert(before[q] == x);
                }
                if before.contains(x) {
                    let q = choose|q: int| 0 <= q < before.len() && before[q] == x;
                    assert(string_views(r@)[q] == x);
                }
                if x == name@ {
                    assert(string_views(r@)[before.len() as int] == x);
                }
            }
        }
    } else {
        assert(before.to_set() =~= before.to_set().insert(name@));
    }
}

/// The `family` string of an object, if it has one.
fn item_family(item: &Json) -> (r: Option<&String>)
    ensures
        r matches Some(s) ==> family_of_item(*item) == Some(s@),
        r is None ==> family_of_item(*item) is None,
{
    match item {
        Json::Object(fs) => match find_member(fs, "family") {
            Some(Json::Str(s)) => Some(s),
            _ => None,
        },
        _ => None,
    }
}

impl Utils {
/// The family names a parsed document lists, each once.
pub fn families_of(doc: &Json) -> (r: Vec<String>)
    ensures
        distinct(string_views(r@)),
        string_views(r@).to_set() == families_in(*doc),
{
    let mut r: Vec<String> = Vec::new();
    assert(string_views(r@).to_set() =~= Set::<Seq<char>>::empty());
    let ms = match doc {
        Json::Object(ms) => ms,
        _ => return r,
    };
    let groups = match find_member(ms, "family_map") {
        Some(Json::Object(g)) => g,
        _ => return r,
    };
    let mut i: usize = 0;
    assert(groups@.take(0) =~= Seq::<(String, Json)>::empty());
    while i < groups.len()
        invariant
            i <= groups@.len(),
            distinct(string_views(r@)),
            string_views(r@).to_set() == group_families(groups@.take(i as int)),
        decreases groups.len() - i,
    {
        assert(groups@.take(i + 1).drop_last() =~= groups@.take(i as int));
        let ghost done = group_families(groups@.take(i as int));
        match &groups[i].1 {
            Json::Array(items) => {
                let mut j: usize = 0;
                assert(items@.take(0) =~= Seq::<Json>::empty());
                assert(done + item_families(items@.take(0)) =~= done);
                while j < items.len()
                    invariant
                        j <= items@.len(),
                        distinct(string_views(r@)),
                        string_views(r@).to_set() == done + item_families(items@.take(j as int)),
                    decreases items.len() - j,
                {
                    assert(items@.take(j + 1).drop_last() =~= items@.take(j as int));
                    assert(items@.take(j + 1).last() == items@[j as int]);
                    match item_family(&items[j]) {
                        Some(name) => {
                            add_name(&mut r, name);
                            assert(done + item_families(items@.take(j + 1)) =~= (done + item_families(items@.take(j as int))).insert(name@));
                        },
                        None => {},
                    }
                    j = j + 1;
                }
                assert(items@.take(items@.len() as int) =~= items@);
            },
            _ => {},
        }
        i = i + 1;
    }
    assert(groups@.take(groups@.len() as int) =~= groups@);
    r
}

/// The family names the terminal's introspection output lists, each
/// once; none for output that is empty, no JSON or of another shape.
pub fn extract_fonts_from_json(json_text: &str) -> (r: Vec<String>)
    ensures
        distinct(string_views(r@)),
        string_views(r@).to_set() == supported_of(json_text@),
        json_text@.len() == 0 ==> r@.len() == 0,
{
    match parse_json(json_text) {
        Some(doc) => Utils::families_of(&doc),
        None => {
            let r: Vec<String> = Vec::new();
            assert(string_views(r@).to_set() =~= Set::<Seq<char>>::empty());
            r
        },
    }
}
}

} // verus!
