//! Completion candidates for the plugin's command line.

use vstd::prelude::*;
use crate::catalog::FontCatalog;
use crate::sources::distinct;
use crate::setup::same_chars;
use crate::text::{
    blank, chars_of, is_blank, slice_chars, sort_texts, sorted_texts, starts_with,
    string_views,
};

verus! {

/// The lowercase form of a text, as `str::to_lowercase` gives it.
pub uninterp spec fn lower_of(s: Seq<char>) -> Seq<char>;

/// Relies on `str::to_lowercase`: the lowercase form depends on the
/// characters alone.
#[verifier::external_body]
fn lowercase(s: &str) -> (r: String)
    ensures
        r@ == lower_of(s@),
{
    s.to_lowercase()
}

/// Whether `n` occurs in `h` starting at `i`.
pub open spec fn occurs_at(h: Seq<char>, n: Seq<char>, i: int) -> bool {
    0 <= i && i + n.len() <= h.len() && h.subrange(i, i + n.len()) == n
}

/// Whether `n` occurs somewhere in `h`.
pub open spec fn contains_sub(h: Seq<char>, n: Seq<char>) -> bool {
    exists|i: int| occurs_at(h, n, i)
}

/// The first position at or after `i` where `n` occurs in `h`.
pub open spec fn find_from(h: Seq<char>, n: Seq<char>, i: nat) -> Option<nat>
    decreases h.len() + 1 - i,
{
    if i + n.len() > h.len() {
        None
    } else if occurs_at(h, n, i as int) {
        Some(i)
    } else {
        find_from(h, n, i + 1)
    }
}

/// The words of a text: the runs between whitespace, empty ones left out.
pub open spec fn words(t: Seq<char>) -> Seq<Seq<char>> {
    if words_acc(t).1.len() > 0 {
        words_acc(t).0.push(words_acc(t).1)
    } else {
        words_acc(t).0
    }
}

/// The finished words of `t` and the word still open at its end.
pub open spec fn words_acc(t: Seq<char>) -> (Seq<Seq<char>>, Seq<char>)
    decreases t.len(),
{
    if t.len() == 0 {
        (Seq::empty(), Seq::empty())
    } else {
        let (done, cur) = words_acc(t.drop_last());
        if is_blank(t.last()) {
            if cur.len() > 0 {
                (done.push(cur), Seq::empty())
            } else {
                (done, cur)
            }
        } else {
            (done, cur.push(t.last()))
        }
    }
}

/// The index among `args` of the first word whose first occurrence in
/// `line` spans `cursor`.
pub open spec fn arg_at(line: Seq<char>, args: Seq<Seq<char>>, cursor: nat) -> Option<nat>
    decreases args.len(),
{
    if args.len() == 0 {
        None
    } else {
        match arg_at(line, args.drop_last(), cursor) {
            Some(k) => Some(k),
            None => match find_from(line, args.last(), 0) {
                Some(s) => if s <= cursor && cursor <= s + args.last().len() {
                    Some((args.len() - 1) as nat)
                } else {
                    None
                },
                None => None,
            },
        }
    }
}

/// The action words offered while none is typed.
pub open spec fn action_words() -> Seq<Seq<char>> {
    seq!["check"@, "set_font"@, "set_size"@, "list"@]
}

/// The words among `ws` that begin with `lead`, in order.
pub open spec fn with_prefix(ws: Seq<Seq<char>>, lead: Seq<char>) -> Seq<Seq<char>>
    decreases ws.len(),
{
    if ws.len() == 0 {
        ws
    } else {
        let rest = with_prefix(ws.drop_last(), lead);
        let w = ws.last();
        if lead.len() <= w.len() && w.take(lead.len() as int) == lead {
            rest.push(w)
        } else {
            rest
        }
    }
}

/// The action word typed on a command line: its second word, if any.
pub open spec fn action_of(line: Seq<char>) -> Seq<char> {
    if words(line).len() >= 2 {
        words(line)[1]
    } else {
        Seq::empty()
    }
}

/// The words after the first (the command's name) on a command line.
pub open spec fn args_of(line: Seq<char>) -> Seq<Seq<char>> {
    if words(line).len() > 0 {
        words(line).skip(1)
    } else {
        Seq::empty()
    }
}

/// Candidates for the action word; none once the cursor is past it.
pub open spec fn action_candidates(line: Seq<char>, lead: Seq<char>, cursor: nat) -> Seq<Seq<char>> {
    match arg_at(line, args_of(line), cursor) {
        Some(k) => if k > 0 {
            Seq::empty()
        } else {
            with_prefix(action_words(), lead)
        },
        None => with_prefix(action_words(), lead),
    }
}

/// The font keys, among `keys`, whose lowercase form (given alongside)
/// contains `lower_lead`.
pub open spec fn matching(keys: Seq<Seq<char>>, lower_keys: Seq<Seq<char>>, lower_lead: Seq<char>) -> Set<
    Seq<char>,
> {
    Set::new(
        |k: Seq<char>|
            exists|i: int|
                0 <= i < keys.len() && keys[i] == k && contains_sub(
                    #[trigger] lower_keys[i],
                    lower_lead,
                ),
    )
}

/// Whether `n` occurs in `h`.
pub fn text_contains(h: &[char], n: &[char]) -> (r: bool)
    ensures
        r == contains_sub(h@, n@),
{
    if n.len() > h.len() {
        return false;
    }
    let last = h.len() - n.len();
    let mut i: usize = 0;
    loop
        invariant
            n@.len() <= h@.len(),
            last == h@.len() - n@.len(),
            i <= last,
            forall|j: int| 0 <= j < i ==> !occurs_at(h@, n@, j),
        decreases last - i,
    {
        assert(i + n@.len() <= h@.len());
        let end = h.len() - (last - i);
        let piece = slice_chars(h, i, end);
        if same_chars(piece.as_slice(), n) {
            assert(occurs_at(h@, n@, i as int));
            return true;
        }
        if i == last {
            assert forall|j: int| !occurs_at(h@, n@, j) by {
                if 0 <= j <= i {
                }
            }
            return false;
        }
        i = i + 1;
    }
}

/// The first position where `n` occurs in `h`.
fn find_text(h: &[char], n: &[char]) -> (r: Option<usize>)
    ensures
        r matches Some(p) ==> find_from(h@, n@, 0) == Some(p as nat),
        r is None ==> find_from(h@, n@, 0) is None,
{
    if n.len() > h.len() {
        return None;
    }
    let last = h.len() - n.len();
    let mut i: usize = 0;
    loop
        invariant
            n@.len() <= h@.len(),
            last == h@.len() - n@.len(),
            i <= last,
            find_from(h@, n@, 0) == find_from(h@, n@, i as nat),
        decreases last - i,
    {
        assert(i + n@.len() <= h@.len());
        let end = h.len() - (last - i);
        let piece = slice_chars(h, i, end);
        if same_chars(piece.as_slice(), n) {
            return Some(i);
        }
        if i == last {
            assert(find_from(h@, n@, (i + 1) as nat) is None);
            return None;
        }
        i = i + 1;
    }
}

/// The words of `t`.
pub fn split_words(t: &[char]) -> (r: Vec<Vec<char>>)
    ensures
        crate::text::views(r@) == words(t@),
{
    let mut done: Vec<Vec<char>> = Vec::new();
    let mut cur: Vec<char> = Vec::new();
    let mut i: usize = 0;
    assert(t@.take(0) =~= Seq::<char>::empty());
    while i < t.len()
        invariant
            i <= t@.len(),
            (crate::text::views(done@), cur@) == words_acc(t@.take(i as int)),
            forall|j: int| 0 <= j < done@.len() ==> #[trigger] done@[j]@.len() > 0,
        decreases t.len() - i,
    {
        assert(t@.take(i + 1).drop_last() =~= t@.take(i as int));
        let ghost before = crate::text::views(done@);
        if blank(t[i]) {
            if cur.len() > 0 {
                let w = cur;
                done.push(w);
                cur = Vec::new();
                assert(crate::text::views(done@) =~= before.push(w@));
            }
        } else {
            cur.push(t[i]);
        }
        i = i + 1;
    }
    assert(t@.take(t@.len() as int) =~= t@);
    if cur.len() > 0 {
        done.push(cur);
    }
    done
}

/// Reordering keeps a sequence of strings free of repeated texts.
proof fn lemma_same_multiset_distinct(a: Seq<String>, b: Seq<String>)
    requires
        a.to_multiset() == b.to_multiset(),
        distinct(string_views(b)),
    ensures
        distinct(string_views(a)),
{
    broadcast use vstd::seq_lib::group_to_multiset_ensures;

    assert(b.no_duplicates()) by {
        assert forall|i: int, j: int| 0 <= i < b.len() && 0 <= j < b.len() && i != j implies b[i] != b[j] by {
            if i < j {
                assert(string_views(b)[i] != string_views(b)[j]);
            } else {
                assert(string_views(b)[j] != string_views(b)[i]);
            }
        }
    }
    b.lemma_multiset_has_no_duplicates();
    a.lemma_multiset_has_no_duplicates_conv();
    assert forall|i: int, j: int| 0 <= i < j < string_views(a).len() implies string_views(a)[i] != string_views(a)[j] by {
        if string_views(a)[i] == string_views(a)[j] {
            assert(a[i] != a[j]);
            assert(a.to_multiset().count(a[i]) > 0);
            assert(a.to_multiset().count(a[j]) > 0);
            assert(b.contains(a[i]));
            assert(b.contains(a[j]));
            let p = choose|p: int| 0 <= p < b.len() && b[p] == a[i];
            let q = choose|q: int| 0 <= q < b.len() && b[q] == a[j];
            if p < q {
                assert(string_views(b)[p] != string_views(b)[q]);
            } else {
                assert(string_views(b)[q] != string_views(b)[p]);
            }
        }
    }
}

proof fn lemma_find_occurs(h: Seq<char>, n: Seq<char>, i: nat)
    ensures
        find_from(h, n, i) matches Some(p) ==> occurs_at(h, n, p as int),
    decreases h.len() + 1 - i,
{
    if i + n.len() <= h.len() && !occurs_at(h, n, i as int) {
        lemma_find_occurs(h, n, i + 1);
    }
}

proof fn lemma_arg_at_prefix(line: Seq<char>, args: Seq<Seq<char>>, cursor: nat, k: int)
    requires
        0 <= k < args.len(),
        arg_at(line, args.take(k), cursor) is None,
        find_from(line, args[k], 0) matches Some(s) && s <= cursor && cursor <= s + args[k].len(),
    ensures
        arg_at(line, args, cursor) == Some(k as nat),
    decreases args.len(),
{
    if k == args.len() - 1 {
        assert(args.drop_last() =~= args.take(k));
    } else {
        assert(args.drop_last().take(k) =~= args.take(k));
        lemma_arg_at_prefix(line, args.drop_last(), cursor, k);
    }
}

/// The keys whose lowercase form contains `lower_lead`, sorted.
/// `lower_keys[i]` is the lowercase form of `keys[i]`.
pub fn font_candidates(keys: &Vec<String>, lower_keys: &Vec<String>, lower_lead: &str) -> (r: Vec<
    String,
>)
    requires
        keys@.len() == lower_keys@.len(),
        distinct(string_views(keys@)),
    ensures
        sorted_texts(string_views(r@)),
        distinct(string_views(r@)),
        string_views(r@).to_set() == matching(string_views(keys@), string_views(lower_keys@), lower_lead@),
{
    broadcast use vstd::seq_lib::group_to_multiset_ensures;

    let lead = chars_of(lower_lead);
    let ghost ks = string_views(keys@);
    let ghost ls = string_views(lower_keys@);
    let mut picked: Vec<String> = Vec::new();
    let mut i: usize = 0;
    while i < keys.len()
        invariant
            i <= keys@.len() == lower_keys@.len(),
            lead@ == lower_lead@,
            ks == string_views(keys@),
            ls == string_views(lower_keys@),
            distinct(ks),
            distinct(string_views(picked@)),
            forall|v: Seq<char>| string_views(picked@).contains(v) <==> exists|j: int|
                0 <= j < i && ks[j] == v && contains_sub(#[trigger] ls[j], lower_lead@),
        decreases keys.len() - i,
    {
        let lk = chars_of(lower_keys[i].as_str());
        assert(ls[i as int] == lk@);
        if text_contains(lk.as_slice(), lead.as_slice()) {
            let ghost before = string_views(picked@);
            assert(!before.contains(ks[i as int])) by {
                if before.contains(ks[i as int]) {
                    let j = choose|j: int| 0 <= j < i && ks[j] == ks[i as int] && contains_sub(#[trigger] ls[j], lower_lead@);
                }
            }
            picked.push(keys[i].clone());
            assert(string_views(picked@) =~= before.push(ks[i as int]));
            assert forall|a: int, b: int| 0 <= a < b < string_views(picked@).len() implies string_views(picked@)[a] != string_views(picked@)[b] by {
                if b == before.len() {
                    assert(before[a] == string_views(picked@)[a]);
                } else {
                    assert(before[a] != before[b]);
                }
            }
            assert forall|v: Seq<char>| string_views(picked@).contains(v) <==> exists|j: int|
                0 <= j < i + 1 && ks[j] == v && contains_sub(#[trigger] ls[j], lower_lead@) by {
                if string_views(picked@).contains(v) && !before.contains(v) {
                    let q = choose|q: int| 0 <= q < string_views(picked@).len() && string_views(picked@)[q] == v;
                    if q < before.len() {
                        assert(before[q] == v);
                    }
                }
                if before.contains(v) {
                    let q = choose|q: int| 0 <= q < before.len() && before[q] == v;
                    assert(string_views(picked@)[q] == v);
                }
                if exists|j: int| 0 <= j < i + 1 && ks[j] == v && contains_sub(#[trigger] ls[j], lower_lead@) {
                    let j = choose|j: int| 0 <= j < i + 1 && ks[j] == v && contains_sub(#[trigger] ls[j], lower_lead@);
                    if j == i {
                        assert(string_views(picked@)[before.len() as int] == v);
                    }
                }
            }
        } else {
            assert forall|v: Seq<char>| string_views(picked@).contains(v) <==> exists|j: int|
                0 <= j < i + 1 && ks[j] == v && contains_sub(#[trigger] ls[j], lower_lead@) by {
                if exists|j: int| 0 <= j < i + 1 && ks[j] == v && contains_sub(#[trigger] ls[j], lower_lead@) {
                    let j = choose|j: int| 0 <= j < i + 1 && ks[j] == v && contains_sub(#[trigger] ls[j], lower_lead@);
                    assert(j != i);
                    assert(exists|j: int| 0 <= j < i && ks[j] == v && contains_sub(#[trigger] ls[j], lower_lead@));
                }
            }
        }
        i = i + 1;
    }
    let sorted = sort_texts(picked);
    proof {
        lemma_same_multiset_distinct(sorted@, picked@);
        crate::plugin::lemma_same_multiset_same_views(sorted@, picked@);
        let m = matching(ks, ls, lower_lead@);
        assert forall|v: Seq<char>| string_views(picked@).to_set().contains(v) == m.contains(v) by {}
        assert(string_views(picked@).to_set() =~= m);
    }
    sorted
}

/// The completion candidates for a command line. `arg_lead` is the word
/// being completed, `cmd_line` the whole line, `cursor_pos` the cursor's
/// position in it (in characters). After `set_font`, the catalog keys whose
/// lowercase form contains the typed text's, sorted; after `list`, `check`
/// or `set_size`, none; else the action words that begin with the typed
/// text, while the cursor is on the action word.
pub fn completion(arg_lead: &str, cmd_line: &str, cursor_pos: usize, catalog: &FontCatalog) -> (r:
    Vec<String>)
    requires
        catalog.wf(),
    ensures
        action_of(cmd_line@) == "set_font"@ ==> distinct(string_views(r@)),
        action_of(cmd_line@) == "set_font"@ ==> sorted_texts(string_views(r@)) && string_views(
            r@,
        ).to_set() == Set::new(
            |k: Seq<char>|
                catalog@.contains_key(k) && contains_sub(lower_of(k), lower_of(arg_lead@)),
        ),
        (action_of(cmd_line@) == "list"@ || action_of(cmd_line@) == "check"@ || action_of(cmd_line@)
            == "set_size"@) ==> r@.len() == 0,
        !(action_of(cmd_line@) == "set_font"@ || action_of(cmd_line@) == "list"@ || action_of(
            cmd_line@,
        ) == "check"@ || action_of(cmd_line@) == "set_size"@) ==> string_views(r@)
            == action_candidates(cmd_line@, arg_lead@, cursor_pos as nat),
{
    proof {
        reveal_strlit("set_font");
        reveal_strlit("list");
        reveal_strlit("check");
        reveal_strlit("set_size");
        assert("set_font"@.len() == 8 && "set_size"@.len() == 8 && "list"@.len() == 4);
        assert("check"@.len() == 5);
        assert("set_font"@[4] != "set_size"@[4]);
    }
    let line = chars_of(cmd_line);
    let ws = split_words(line.as_slice());
    let ghost args = args_of(cmd_line@);
    let empty: Vec<char> = Vec::new();
    let action = if ws.len() >= 2 { slice_chars(ws[1].as_slice(), 0, ws[1].len()) } else { empty };
    assert(ws.len() >= 2 ==> ws@[1]@.subrange(0, ws@[1]@.len() as int) =~= ws@[1]@);
    assert(action@ == action_of(cmd_line@));
    let is_set_font = same_chars(action.as_slice(), chars_of("set_font").as_slice());
    let quiet = same_chars(action.as_slice(), chars_of("list").as_slice()) || same_chars(
        action.as_slice(),
        chars_of("check").as_slice(),
    ) || same_chars(action.as_slice(), chars_of("set_size").as_slice());
    if is_set_font {
        let keys = catalog.keys();
        let mut lowered: Vec<String> = Vec::new();
        let mut i: usize = 0;
        while i < keys.len()
            invariant
                i <= keys@.len(),
                lowered@.len() == i,
                forall|j: int| 0 <= j < i ==> #[trigger] lowered@[j]@ == lower_of(keys@[j]@),
            decreases keys.len() - i,
        {
            lowered.push(lowercase(keys[i].as_str()));
            i = i + 1;
        }
        let lead = lowercase(arg_lead);
        let r = font_candidates(&keys, &lowered, lead.as_str());
        proof {
            let ks = string_views(keys@);
            let ls = string_views(lowered@);
            let want = Set::new(
                |k: Seq<char>|
                    catalog@.contains_key(k) && contains_sub(lower_of(k), lower_of(arg_lead@)),
            );
            assert forall|k: Seq<char>| matching(ks, ls, lead@).contains(k) == want.contains(k) by {
                if matching(ks, ls, lead@).contains(k) {
                    let j = choose|j: int| 0 <= j < ks.len() && ks[j] == k && contains_sub(#[trigger] ls[j], lead@);
                    assert(ks.to_set().contains(k));
                }
                if want.contains(k) {
                    assert(ks.to_set().contains(k));
                    let j = choose|j: int| 0 <= j < ks.len() && ks[j] == k;
                    assert(ls[j] == lower_of(k));
                }
            }
            assert(matching(ks, ls, lead@) =~= want);
        }
        return r;
    }
    if quiet {
        return Vec::new();
    }
    // the argument under the cursor
    let mut at: Option<usize> = None;
    let mut k: usize = 1;
    assert(ws@.len() > 0 ==> args == crate::text::views(ws@).skip(1));
    while k < ws.len() && at.is_none()
        invariant
            1 <= k <= ws@.len() || ws@.len() == 0,
            line@ == cmd_line@,
            crate::text::views(ws@) == words(cmd_line@),
            args == args_of(cmd_line@),
            at is None ==> ws@.len() > 0 ==> arg_at(cmd_line@, args.take(k - 1), cursor_pos as nat) is None,
            at matches Some(q) ==> arg_at(cmd_line@, args, cursor_pos as nat) == Some(q as nat),
        decreases ws.len() - k,
    {
        let w = ws[k].as_slice();
        assert(args[k - 1] == w@);
        match find_text(line.as_slice(), w) {
            Some(s) => {
                proof {
                    lemma_find_occurs(line@, w@, 0);
                }
                if s <= cursor_pos && cursor_pos - s <= w.len() {
                    proof {
                        lemma_arg_at_prefix(cmd_line@, args, cursor_pos as nat, k - 1);
                    }
                    at = Some(k - 1);
                }
            },
            None => {},
        }
        if at.is_none() {
            assert(args.take(k as int).drop_last() =~= args.take(k - 1));
        }
        k = k + 1;
    }
    if ws.len() > 0 && at.is_none() {
        assert(k == ws.len());
        assert(args.len() == ws@.len() - 1);
        assert(args.take(ws@.len() - 1) =~= args);
        assert(arg_at(cmd_line@, args, cursor_pos as nat) is None);
    }
    if ws.len() == 0 {
        assert(args_of(cmd_line@) =~= Seq::<Seq<char>>::empty());
    }
    let beyond = match at {
        Some(q) => q > 0,
        None => false,
    };
    if beyond {
        return Vec::new();
    }
    assert(arg_at(cmd_line@, args, cursor_pos as nat) is None || arg_at(cmd_line@, args, cursor_pos as nat) == Some(0nat));
    assert(action_candidates(cmd_line@, arg_lead@, cursor_pos as nat) == with_prefix(action_words(), arg_lead@));
    let lead = chars_of(arg_lead);
    let mut out: Vec<String> = Vec::new();
    let mut all: Vec<String> = Vec::new();
    all.push("check".to_string());
    all.push("set_font".to_string());
    all.push("set_size".to_string());
    all.push("list".to_string());
    assert(string_views(all@) =~= action_words());
    let mut i: usize = 0;
    assert(action_words().take(0) =~= Seq::<Seq<char>>::empty());
    while i < all.len()
        invariant
            i <= all@.len(),
            lead@ == arg_lead@,
            string_views(all@) == action_words(),
            string_views(out@) == with_prefix(action_words().take(i as int), arg_lead@),
        decreases all.len() - i,
    {
        let w = chars_of(all[i].as_str());
        assert(action_words().take(i + 1).drop_last() =~= action_words().take(i as int));
        assert(action_words().take(i + 1).last() == w@);
        if starts_with(w.as_slice(), lead.as_slice()) {
            let ghost before = string_views(out@);
            out.push(all[i].clone());
            assert(string_views(out@) =~= before.push(w@));
        }
        i = i + 1;
    }
    assert(action_words().take(4) =~= action_words());
    out
}

} // verus!
