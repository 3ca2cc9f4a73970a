//! Character-level helpers: whitespace, trimming, lines, ordering.

use vstd::prelude::*;
use vstd::std_specs::iter::IteratorSpec;

verus! {

/// Unicode White_Space: the characters that `char::is_whitespace` accepts.
pub open spec fn is_blank(c: char) -> bool {
    let n = c as u32;
    n == 0x20 || (0x09 <= n && n <= 0x0d) || n == 0x85 || n == 0xa0 || n == 0x1680 || (0x2000
        <= n && n <= 0x200a) || n == 0x2028 || n == 0x2029 || n == 0x202f || n == 0x205f || n
        == 0x3000
}

/// Whether `c` is a whitespace character.
pub fn blank(c: char) -> (r: bool)
    ensures
        r == is_blank(c),
{
    let n = c as u32;
    n == 0x20 || (0x09 <= n && n <= 0x0d) || n == 0x85 || n == 0xa0 || n == 0x1680 || (0x2000
        <= n && n <= 0x200a) || n == 0x2028 || n == 0x2029 || n == 0x202f || n == 0x205f || n
        == 0x3000
}

/// `s` with every whitespace character removed.
pub open spec fn strip_blanks(s: Seq<char>) -> Seq<char>
    decreases s.len(),
{
    if s.len() == 0 {
        s
    } else if is_blank(s.last()) {
        strip_blanks(s.drop_last())
    } else {
        strip_blanks(s.drop_last()).push(s.last())
    }
}


/// `s` without its leading whitespace.
pub open spec fn trim_start(s: Seq<char>) -> Seq<char>
    decreases s.len(),
{
    if s.len() > 0 && is_blank(s[0]) {
        trim_start(s.drop_first())
    } else {
        s
    }
}

/// `s` without its trailing whitespace.
pub open spec fn trim_end(s: Seq<char>) -> Seq<char>
    decreases s.len(),
{
    if s.len() > 0 && is_blank(s.last()) {
        trim_end(s.drop_last())
    } else {
        s
    }
}

/// `s` without leading and trailing whitespace.
pub open spec fn trim(s: Seq<char>) -> Seq<char> {
    trim_end(trim_start(s))
}

/// The lines of a text: the pieces between `'\n'` characters. A text always
/// has at least one line, and one that ends in `'\n'` has an empty last one.
pub open spec fn split_lines(t: Seq<char>) -> Seq<Seq<char>>
    decreases t.len(),
{
    if t.len() == 0 {
        seq![Seq::<char>::empty()]
    } else {
        let init = split_lines(t.drop_last());
        if t.last() == '\n' {
            init.push(Seq::<char>::empty())
        } else {
            init.update(init.len() - 1, init.last().push(t.last()))
        }
    }
}

/// Lines put back together, with `'\n'` between neighbours.
pub open spec fn join_lines(ls: Seq<Seq<char>>) -> Seq<char>
    decreases ls.len(),
{
    if ls.len() == 0 {
        Seq::<char>::empty()
    } else if ls.len() == 1 {
        ls[0]
    } else {
        join_lines(ls.drop_last()) + seq!['\n'] + ls.last()
    }
}

/// A line: a text without `'\n'`.
pub open spec fn is_line(l: Seq<char>) -> bool {
    forall|i: int| 0 <= i < l.len() ==> l[i] != '\n'
}

/// The views of a sequence of character vectors.
pub open spec fn views(v: Seq<Vec<char>>) -> Seq<Seq<char>> {
    v.map_values(|l: Vec<char>| l@)
}

/// The views of a sequence of strings.
pub open spec fn string_views(v: Seq<String>) -> Seq<Seq<char>> {
    v.map_values(|s: String| s@)
}

pub proof fn lemma_split_lines_len(t: Seq<char>)
    ensures
        split_lines(t).len() >= 1,
    decreases t.len(),
{
    if t.len() > 0 {
        lemma_split_lines_len(t.drop_last());
    }
}

/// Appending a line's characters to a text extends its last line.
proof fn lemma_split_append(p: Seq<char>, l: Seq<char>)
    requires
        is_line(l),
    ensures
        split_lines(p + l) == split_lines(p).update(
            split_lines(p).len() - 1,
            split_lines(p).last() + l,
        ),
    decreases l.len(),
{
    lemma_split_lines_len(p);
    if l.len() == 0 {
        assert(p + l =~= p);
        assert(split_lines(p).last() + l =~= split_lines(p).last());
        assert(split_lines(p).update(split_lines(p).len() - 1, split_lines(p).last())
            =~= split_lines(p));
    } else {
        let l0 = l.drop_last();
        assert(is_line(l0));
        lemma_split_append(p, l0);
        assert((p + l).drop_last() =~= p + l0);
        assert((p + l).last() == l.last());
        assert(l.last() != '\n');
        lemma_split_lines_len(p + l0);
        assert(split_lines(p).last() + l =~= (split_lines(p).last() + l0).push(l.last()));
        assert(split_lines(p + l) =~= split_lines(p).update(
            split_lines(p).len() - 1,
            split_lines(p).last() + l,
        ));
    }
}

/// Splitting joined lines gives the lines back.
pub proof fn lemma_split_join(ls: Seq<Seq<char>>)
    requires
        ls.len() >= 1,
        forall|i: int| 0 <= i < ls.len() ==> is_line(#[trigger] ls[i]),
    ensures
        split_lines(join_lines(ls)) == ls,
    decreases ls.len(),
{
    if ls.len() == 1 {
        lemma_split_append(Seq::<char>::empty(), ls[0]);
        assert(Seq::<char>::empty() + ls[0] =~= ls[0]);
        assert(split_lines(join_lines(ls)) =~= ls);
    } else {
        let init = ls.drop_last();
        assert forall|i: int| 0 <= i < init.len() implies is_line(#[trigger] init[i]) by {
            assert(init[i] == ls[i]);
        }
        lemma_split_join(init);
        let p = join_lines(init) + seq!['\n'];
        assert(p.drop_last() =~= join_lines(init));
        assert(split_lines(p) == init.push(Seq::<char>::empty()));
        assert(is_line(ls[ls.len() - 1]));
        lemma_split_append(p, ls.last());
        assert(Seq::<char>::empty() + ls.last() =~= ls.last());
        assert(split_lines(join_lines(ls)) =~= ls);
    }
}

/// Joining the lines of a text gives the text back.
pub proof fn lemma_join_split(t: Seq<char>)
    ensures
        join_lines(split_lines(t)) == t,
    decreases t.len(),
{
    if t.len() > 0 {
        let init = split_lines(t.drop_last());
        lemma_join_split(t.drop_last());
        lemma_split_lines_len(t.drop_last());
        if t.last() == '\n' {
            assert(init.push(Seq::<char>::empty()).drop_last() =~= init);
            assert(t =~= t.drop_last() + seq!['\n'] + Seq::<char>::empty());
        } else {
            let u = init.update(init.len() - 1, init.last().push(t.last()));
            if init.len() == 1 {
                assert(t =~= init[0].push(t.last()));
            } else {
                assert(u.drop_last() =~= init.drop_last());
                assert(join_lines(init) == join_lines(init.drop_last()) + seq!['\n'] + init.last());
                let a = join_lines(init.drop_last()) + seq!['\n'];
                assert(t.drop_last() == a + init.last());
                assert(t =~= t.drop_last().push(t.last()));
                assert((a + init.last()).push(t.last()) =~= a + init.last().push(t.last()));
                assert(u.last() == init.last().push(t.last()));
                assert(join_lines(u) == join_lines(u.drop_last()) + seq!['\n'] + u.last());
            }
        }
    }
}

/// The characters of `s` from `lo` up to `hi`.
pub fn slice_chars(s: &[char], lo: usize, hi: usize) -> (r: Vec<char>)
    requires
        lo <= hi <= s@.len(),
    ensures
        r@ == s@.subrange(lo as int, hi as int),
{
    let mut r: Vec<char> = Vec::new();
    let mut i: usize = lo;
    while i < hi
        invariant
            lo <= i <= hi <= s@.len(),
            r@ == s@.subrange(lo as int, i as int),
        decreases hi - i,
    {
        r.push(s[i]);
        i = i + 1;
        assert(r@ =~= s@.subrange(lo as int, i as int));
    }
    r
}

/// `s` without leading and trailing whitespace.
pub fn trimmed(s: &[char]) -> (r: Vec<char>)
    ensures
        r@ == trim(s@),
{
    let n = s.len();
    let mut lo: usize = 0;
    assert(s@.subrange(0, n as int) =~= s@);
    while lo < n && blank(s[lo])
        invariant
            lo <= n == s@.len(),
            trim_start(s@) == trim_start(s@.subrange(lo as int, n as int)),
        decreases n - lo,
    {
        assert(s@.subrange(lo as int, n as int).drop_first() =~= s@.subrange(lo + 1, n as int));
        lo = lo + 1;
    }
    let ghost ts = s@.subrange(lo as int, n as int);
    assert(trim_start(s@) == ts);
    let mut hi: usize = n;
    assert(ts.subrange(0, (hi - lo) as int) =~= ts);
    while hi > lo && blank(s[hi - 1])
        invariant
            lo <= hi <= n == s@.len(),
            ts == s@.subrange(lo as int, n as int),
            trim_end(ts) == trim_end(s@.subrange(lo as int, hi as int)),
        decreases hi,
    {
        assert(s@.subrange(lo as int, hi as int).drop_last() =~= s@.subrange(lo as int, hi - 1));
        hi = hi - 1;
    }
    slice_chars(s, lo, hi)
}

/// `s` with every whitespace character removed.
pub fn stripped(s: &[char]) -> (r: Vec<char>)
    ensures
        r@ == strip_blanks(s@),
{
    let mut r: Vec<char> = Vec::new();
    let mut i: usize = 0;
    while i < s.len()
        invariant
            i <= s@.len(),
            r@ == strip_blanks(s@.take(i as int)),
        decreases s.len() - i,
    {
        assert(s@.take(i + 1).drop_last() =~= s@.take(i as int));
        if !blank(s[i]) {
            r.push(s[i]);
        }
        i = i + 1;
    }
    assert(s@.take(s.len() as int) =~= s@);
    r
}

/// Whether `s` holds no `'\n'`.
pub fn is_line_exec(s: &[char]) -> (r: bool)
    ensures
        r == is_line(s@),
{
    let mut i: usize = 0;
    while i < s.len()
        invariant
            i <= s@.len(),
            forall|j: int| 0 <= j < i ==> s@[j] != '\n',
        decreases s.len() - i,
    {
        if s[i] == '\n' {
            return false;
        }
        i = i + 1;
    }
    true
}

/// Whether `s` begins with `p`.
pub fn starts_with(s: &[char], p: &[char]) -> (r: bool)
    ensures
        r == (p@.len() <= s@.len() && s@.take(p@.len() as int) == p@),
{
    if p.len() > s.len() {
        return false;
    }
    let mut i: usize = 0;
    while i < p.len()
        invariant
            i <= p@.len() <= s@.len(),
            s@.take(i as int) == p@.take(i as int),
        decreases p.len() - i,
    {
        if s[i] != p[i] {
            assert(s@.take(p@.len() as int)[i as int] != p@[i as int]);
            return false;
        }
        i = i + 1;
        assert(s@.take(i as int) =~= p@.take(i as int));
    }
    assert(p@.take(p@.len() as int) =~= p@);
    true
}

/// The lines of `s`, split at `'\n'`.
pub fn split_text(s: &[char]) -> (r: Vec<Vec<char>>)
    ensures
        views(r@) == split_lines(s@),
        forall|i: int| 0 <= i < r@.len() ==> is_line(#[trigger] r@[i]@),
{
    let mut done: Vec<Vec<char>> = Vec::new();
    let mut cur: Vec<char> = Vec::new();
    let mut i: usize = 0;
    assert(s@.take(0) =~= Seq::<char>::empty());
    assert(views(done@).push(cur@) =~= split_lines(s@.take(0)));
    while i < s.len()
        invariant
            i <= s@.len(),
            views(done@).push(cur@) == split_lines(s@.take(i as int)),
            forall|j: int| 0 <= j < done@.len() ==> is_line(#[trigger] done@[j]@),
            is_line(cur@),
        decreases s.len() - i,
    {
        let ghost before = views(done@).push(cur@);
        assert(s@.take(i + 1).drop_last() =~= s@.take(i as int));
        if s[i] == '\n' {
            let finished = cur;
            done.push(finished);
            cur = Vec::new();
            assert(views(done@).push(cur@) =~= before.push(Seq::<char>::empty()));
        } else {
            cur.push(s[i]);
            assert(views(done@).push(cur@) =~= before.update(
                before.len() - 1,
                before.last().push(s[i as int]),
            ));
        }
        i = i + 1;
    }
    assert(s@.take(s.len() as int) =~= s@);
    done.push(cur);
    assert(views(done@) =~= split_lines(s@));
    done
}

/// Lines joined with `'\n'` between neighbours.
pub fn join_text(ls: &Vec<Vec<char>>) -> (r: Vec<char>)
    ensures
        r@ == join_lines(views(ls@)),
{
    let mut r: Vec<char> = Vec::new();
    let mut i: usize = 0;
    assert(views(ls@).take(0) =~= Seq::<Seq<char>>::empty());
    while i < ls.len()
        invariant
            i <= ls@.len(),
            r@ == join_lines(views(ls@).take(i as int)),
        decreases ls.len() - i,
    {
        let ghost before = r@;
        assert(views(ls@).take(i + 1).drop_last() =~= views(ls@).take(i as int));
        if i > 0 {
            r.push('\n');
        }
        let line = &ls[i];
        let mut j: usize = 0;
        let ghost mid = r@;
        while j < line.len()
            invariant
                j <= line@.len(),
                r@ == mid + line@.take(j as int),
            decreases line.len() - j,
        {
            r.push(line[j]);
            j = j + 1;
            assert(r@ =~= mid + line@.take(j as int));
        }
        assert(line@.take(line@.len() as int) =~= line@);
        i = i + 1;
        if i == 1 {
            assert(r@ =~= views(ls@).take(1)[0]);
        }
    }
    assert(views(ls@).take(ls@.len() as int) =~= views(ls@));
    r
}

/// Lexicographic order of texts by code point.
pub open spec fn text_le(a: Seq<char>, b: Seq<char>) -> bool
    decreases a.len(),
{
    if a.len() == 0 {
        true
    } else if b.len() == 0 {
        false
    } else if (a[0] as u32) < (b[0] as u32) {
        true
    } else if (b[0] as u32) < (a[0] as u32) {
        false
    } else {
        text_le(a.drop_first(), b.drop_first())
    }
}

/// Texts in ascending order.
pub open spec fn sorted_texts(s: Seq<Seq<char>>) -> bool {
    forall|i: int, j: int| 0 <= i < j < s.len() ==> text_le(#[trigger] s[i], #[trigger] s[j])
}

pub proof fn lemma_text_le_total(a: Seq<char>, b: Seq<char>)
    ensures
        text_le(a, b) || text_le(b, a),
    decreases a.len(),
{
    if a.len() > 0 && b.len() > 0 && (a[0] as u32) == (b[0] as u32) {
        lemma_text_le_total(a.drop_first(), b.drop_first());
    }
}

pub proof fn lemma_text_le_trans(a: Seq<char>, b: Seq<char>, c: Seq<char>)
    requires
        text_le(a, b),
        text_le(b, c),
    ensures
        text_le(a, c),
    decreases a.len(),
{
    if a.len() > 0 && b.len() > 0 && c.len() > 0 && (a[0] as u32) == (b[0] as u32) && (b[0]
        as u32) == (c[0] as u32) {
        lemma_text_le_trans(a.drop_first(), b.drop_first(), c.drop_first());
    }
}

proof fn lemma_char_code_injective(a: char, b: char)
    requires
        (a as u32) == (b as u32),
    ensures
        a == b,
{
}

pub proof fn lemma_text_le_antisym(a: Seq<char>, b: Seq<char>)
    requires
        text_le(a, b),
        text_le(b, a),
    ensures
        a == b,
    decreases a.len(),
{
    if a.len() > 0 && b.len() > 0 {
        lemma_char_code_injective(a[0], b[0]);
        lemma_text_le_antisym(a.drop_first(), b.drop_first());
        assert(a =~= seq![a[0]] + a.drop_first());
        assert(b =~= seq![b[0]] + b.drop_first());
    } else {
        assert(a =~= b);
    }
}

/// Whether `a` comes no later than `b` in code point order.
pub fn text_le_exec(a: &[char], b: &[char]) -> (r: bool)
    ensures
        r == text_le(a@, b@),
{
    let mut i: usize = 0;
    assert(a@.skip(0) =~= a@ && b@.skip(0) =~= b@);
    while i < a.len() && i < b.len() && (a[i] as u32) == (b[i] as u32)
        invariant
            i <= a@.len(),
            i <= b@.len(),
            text_le(a@, b@) == text_le(a@.skip(i as int), b@.skip(i as int)),
        decreases a.len() - i,
    {
        assert(a@.skip(i as int).drop_first() =~= a@.skip(i + 1));
        assert(b@.skip(i as int).drop_first() =~= b@.skip(i + 1));
        i = i + 1;
    }
    assert(a@.skip(0) =~= a@ && b@.skip(0) =~= b@);
    if i == a.len() {
        true
    } else if i == b.len() {
        false
    } else {
        assert(a@.skip(i as int)[0] == a@[i as int]);
        assert(b@.skip(i as int)[0] == b@[i as int]);
        (a[i] as u32) < (b[i] as u32)
    }
}

/// `v` in ascending code point order.
pub fn sort_texts(v: Vec<String>) -> (r: Vec<String>)
    ensures
        sorted_texts(string_views(r@)),
        r@.to_multiset() == v@.to_multiset(),
        r@.len() == v@.len(),
{
    broadcast use vstd::seq_lib::group_to_multiset_ensures;

    let mut r: Vec<String> = Vec::new();
    let mut i: usize = 0;
    while i < v.len()
        invariant
            i <= v@.len(),
            sorted_texts(string_views(r@)),
            r@.to_multiset() == v@.take(i as int).to_multiset(),
            r@.len() == i,
        decreases v.len() - i,
    {
        let x = v[i].clone();
        let xc = chars_of(x.as_str());
        // find the insertion point: after every element not greater than x
        let mut p: usize = r.len();
        while p > 0 && !text_le_exec(chars_of(r[p - 1].as_str()).as_slice(), xc.as_slice())
            invariant
                p <= r@.len(),
                xc@ == x@,
                forall|k: int| p <= k < r@.len() ==> !text_le(#[trigger] r@[k]@, x@),
            decreases p,
        {
            p = p - 1;
        }
        let ghost old_r = r@;
        r.insert(p, x);
        proof {
            let sv = string_views(r@);
            let so = string_views(old_r);
            assert forall|k: int| p <= k < old_r.len() implies text_le(x@, #[trigger] old_r[k]@) by {
                lemma_text_le_total(x@, old_r[k]@);
            }
            assert forall|a: int, b: int| 0 <= a < b < sv.len() implies text_le(#[trigger] sv[a], #[trigger] sv[b]) by {
                if a < p && b < p {
                    assert(sv[a] == so[a] && sv[b] == so[b]);
                } else if a < p && b == p {
                    // old[p-1] <= x and old[a] <= old[p-1]
                    assert(sv[b] == x@);
                    assert(so[p - 1] == old_r[p - 1]@);
                    if a < p - 1 {
                        assert(text_le(so[a], so[p - 1]));
                        lemma_text_le_trans(so[a], so[p - 1], x@);
                    }
                    assert(sv[a] == so[a]);
                } else if a < p {
                    assert(sv[a] == so[a] && sv[b] == so[b - 1]);
                    assert(text_le(so[a], so[b - 1]));
                } else if a == p {
                    assert(sv[a] == x@ && sv[b] == so[b - 1]);
                } else {
                    assert(sv[a] == so[a - 1] && sv[b] == so[b - 1]);
                }
            }
            assert(v@.take(i + 1) =~= v@.take(i as int).push(v@[i as int]));
            assert(r@ == old_r.insert(p as int, x));
            vstd::seq_lib::to_multiset_insert(old_r, p as int, x);
            v@.take(i as int).to_multiset_ensures();
            assert(v@.take(i as int).push(v@[i as int]).to_multiset() == v@.take(i as int).to_multiset().insert(v@[i as int]));
        }
        i = i + 1;
    }
    assert(v@.take(v@.len() as int) =~= v@);
    r
}

/// The characters of `s`, in order.
pub(crate) fn chars_of(s: &str) -> (r: Vec<char>)
    ensures
        r@ == s@,
{
    broadcast use vstd::string::axiom_spec_iter, vstd::string::next_postcondition;

    let mut it = s.chars();
    let mut r: Vec<char> = Vec::new();
    loop
        invariant
            r@ + it.remaining() == s@,
            it.obeys_prophetic_iter_laws(),
        decreases s@.len() - r@.len(),
    {
        let ghost before = it.remaining();
        match it.next() {
            Some(c) => {
                r.push(c);
                assert(r@ + it.remaining() =~= s@) by {
                    assert(before =~= seq![c] + before.drop_first());
                }
            },
            None => {
                assert(r@ =~= s@);
                return r;
            },
        }
    }
}

/// Relies on `String`'s `FromIterator<&char>`: the string of exactly these characters.
#[verifier::external_body]
pub(crate) fn string_of(cs: &[char]) -> (r: String)
    ensures
        r@ == cs@,
{
    cs.iter().collect()
}

} // verus!
