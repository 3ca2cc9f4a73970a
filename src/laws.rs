//! Laws of the configuration text operations, proved over the spec
//! functions that `Utils::get`, `Utils::replace_font_family` and
//! `Utils::replace_font_size` are specified by.

use vstd::prelude::*;
use crate::catalog::FontCatalog;
use crate::settings::{
    blank_run, default_size_text, directive_value, family_key, family_of, first_directive,
    is_directive, last_directive, replaced, rewritten, size_key, size_text_of,
};
use crate::size::{digits_of, is_digit, is_float_text, magnitude_text, size_text};
use crate::text::{
    is_blank, is_line, join_lines, lemma_split_join, lemma_split_lines_len, split_lines, trim,
    trim_start,
};

verus! {

/// Every piece of a split text is a line.
pub proof fn lemma_split_lines_are_lines(t: Seq<char>)
    ensures
        forall|i: int| 0 <= i < split_lines(t).len() ==> is_line(#[trigger] split_lines(t)[i]),
    decreases t.len(),
{
    if t.len() > 0 {
        lemma_split_lines_are_lines(t.drop_last());
        lemma_split_lines_len(t.drop_last());
        let init = split_lines(t.drop_last());
        if t.last() != '\n' {
            let l = init.last().push(t.last());
            assert(is_line(init[init.len() - 1]));
            assert(is_line(l));
            assert forall|i: int| 0 <= i < split_lines(t).len() implies is_line(
                #[trigger] split_lines(t)[i],
            ) by {
                if i < init.len() - 1 {
                    assert(split_lines(t)[i] == init[i]);
                }
            }
        } else {
            assert forall|i: int| 0 <= i < split_lines(t).len() implies is_line(
                #[trigger] split_lines(t)[i],
            ) by {
                if i < init.len() {
                    assert(split_lines(t)[i] == init[i]);
                }
            }
        }
    }
}

/// The first directive is one, and no line before it is.
proof fn lemma_first_directive_found(ls: Seq<Seq<char>>, key: Seq<char>)
    requires
        first_directive(ls, key) is Some,
    ensures
        0 <= first_directive(ls, key)->0 < ls.len(),
        is_directive(ls[first_directive(ls, key)->0], key),
        forall|j: int| 0 <= j < first_directive(ls, key)->0 ==> !is_directive(#[trigger] ls[j], key),
    decreases ls.len(),
{
    let init = ls.drop_last();
    if first_directive(init, key) is Some {
        lemma_first_directive_found(init, key);
        assert forall|j: int| 0 <= j < first_directive(ls, key)->0 implies !is_directive(
            #[trigger] ls[j],
            key,
        ) by {
            assert(init[j] == ls[j]);
        }
    } else {
        assert forall|j: int| 0 <= j < first_directive(ls, key)->0 implies !is_directive(
            #[trigger] ls[j],
            key,
        ) by {
            lemma_no_directive(init, key, j);
            assert(init[j] == ls[j]);
        }
    }
}

proof fn lemma_no_directive(ls: Seq<Seq<char>>, key: Seq<char>, j: int)
    requires
        first_directive(ls, key) is None,
        0 <= j < ls.len(),
    ensures
        !is_directive(ls[j], key),
    decreases ls.len(),
{
    if j < ls.len() - 1 {
        lemma_no_directive(ls.drop_last(), key, j);
        assert(ls.drop_last()[j] == ls[j]);
    }
}

/// A line set at the first directive's place that is still a directive
/// stays the first one.
proof fn lemma_first_directive_kept(ls: Seq<Seq<char>>, key: Seq<char>, i: int, l: Seq<char>)
    requires
        0 <= i < ls.len(),
        forall|j: int| 0 <= j < i ==> !is_directive(#[trigger] ls[j], key),
        is_directive(l, key),
    ensures
        first_directive(ls.update(i, l), key) == Some(i),
    decreases ls.len(),
{
    let u = ls.update(i, l);
    if i == ls.len() - 1 {
        assert forall|j: int| 0 <= j < u.drop_last().len() implies !is_directive(#[trigger] u.drop_last()[j], key) by {
            assert(u.drop_last()[j] == ls[j]);
        }
        lemma_none_when_no_directive(u.drop_last(), key);
    } else {
        assert(u.drop_last() =~= ls.drop_last().update(i, l));
        assert forall|j: int| 0 <= j < i implies !is_directive(#[trigger] ls.drop_last()[j], key) by {
            assert(ls.drop_last()[j] == ls[j]);
        }
        lemma_first_directive_kept(ls.drop_last(), key, i, l);
    }
}

proof fn lemma_none_when_no_directive(ls: Seq<Seq<char>>, key: Seq<char>)
    requires
        forall|j: int| 0 <= j < ls.len() ==> !is_directive(#[trigger] ls[j], key),
    ensures
        first_directive(ls, key) is None,
    decreases ls.len(),
{
    if ls.len() > 0 {
        assert forall|j: int| 0 <= j < ls.drop_last().len() implies !is_directive(#[trigger] ls.drop_last()[j], key) by {
            assert(ls.drop_last()[j] == ls[j]);
        }
        lemma_none_when_no_directive(ls.drop_last(), key);
        assert(ls[ls.len() - 1] == ls.last());
    }
}

/// Replacing a directive changes exactly one line, the first that sets the
/// key, and leaves every other line, and their order, as it was. Without
/// such a line the text stays as it is.
pub proof fn lemma_replace_changes_one_line(t: Seq<char>, key: Seq<char>, value: Seq<char>)
    requires
        is_line(value),
    ensures
        first_directive(split_lines(t), key) is None ==> replaced(t, key, value) == t,
        first_directive(split_lines(t), key) matches Some(i) ==> {
            let before = split_lines(t);
            let after = split_lines(replaced(t, key, value));
            &&& after.len() == before.len()
            &&& after[i] == rewritten(before[i], key, value)
            &&& forall|j: int| 0 <= j < before.len() && j != i ==> after[j] == before[j]
        },
{
    let ls = split_lines(t);
    if first_directive(ls, key) is Some {
        let i = first_directive(ls, key)->0;
        lemma_first_directive_found(ls, key);
        lemma_split_lines_are_lines(t);
        let l = rewritten(ls[i], key, value);
        let prefix = ls[i].take(key.len() + blank_run(ls[i].skip(key.len() as int)) as int);
        lemma_blank_run_bounds(ls[i].skip(key.len() as int));
        assert(is_line(ls[i]));
        assert(prefix.len() <= ls[i].len());
        assert(is_line(l)) by {
            assert forall|k: int| 0 <= k < l.len() implies l[k] != '\n' by {
                if k < prefix.len() {
                    assert(l[k] == ls[i][k]);
                } else {
                    assert(l[k] == value[k - prefix.len()]);
                }
            }
        }
        let u = ls.update(i, l);
        lemma_split_lines_len(t);
        assert forall|j: int| 0 <= j < u.len() implies is_line(#[trigger] u[j]) by {
            if j != i {
                assert(u[j] == ls[j]);
            }
        }
        lemma_split_join(u);
    }
}

/// Setting the font family to a name from a well-formed catalog changes
/// exactly one line, the first `font_family` line, and no other.
pub proof fn lemma_replace_family_changes_one_line(t: Seq<char>, catalog: &FontCatalog, key: Seq<char>)
    requires
        catalog.wf(),
        catalog@.contains_key(key),
    ensures
        first_directive(split_lines(t), family_key()) is None ==> replaced(
            t,
            family_key(),
            catalog@[key],
        ) == t,
        first_directive(split_lines(t), family_key()) matches Some(i) ==> {
            let before = split_lines(t);
            let after = split_lines(replaced(t, family_key(), catalog@[key]));
            &&& after.len() == before.len()
            &&& after[i] == rewritten(before[i], family_key(), catalog@[key])
            &&& forall|j: int| 0 <= j < before.len() && j != i ==> after[j] == before[j]
        },
{
    catalog.lemma_names_are_lines(key);
    lemma_replace_changes_one_line(t, family_key(), catalog@[key]);
}

proof fn lemma_blank_run_bounds(s: Seq<char>)
    ensures
        blank_run(s) <= s.len(),
        forall|j: int| 0 <= j < blank_run(s) ==> is_blank(#[trigger] s[j]),
    decreases s.len(),
{
    if s.len() > 0 && is_blank(s[0]) {
        lemma_blank_run_bounds(s.drop_first());
        assert forall|j: int| 0 <= j < blank_run(s) implies is_blank(#[trigger] s[j]) by {
            if j > 0 {
                assert(s[j] == s.drop_first()[j - 1]);
            }
        }
    }
}

proof fn lemma_blank_run_concat(a: Seq<char>, v: Seq<char>)
    requires
        forall|j: int| 0 <= j < a.len() ==> is_blank(#[trigger] a[j]),
        v.len() > 0,
        !is_blank(v[0]),
    ensures
        blank_run(a + v) == a.len(),
    decreases a.len(),
{
    if a.len() > 0 {
        assert((a + v).drop_first() =~= a.drop_first() + v);
        assert forall|j: int| 0 <= j < a.drop_first().len() implies is_blank(#[trigger] a.drop_first()[j]) by {
            assert(a.drop_first()[j] == a[j + 1]);
        }
        lemma_blank_run_concat(a.drop_first(), v);
        assert((a + v)[0] == a[0]);
    } else {
        assert(a + v =~= v);
    }
}

/// Replacing a directive twice with the same value gives what replacing it
/// once gave, where the value is a line that begins with no whitespace.
pub proof fn lemma_replace_idempotent(t: Seq<char>, key: Seq<char>, value: Seq<char>)
    requires
        is_line(value),
        value.len() > 0,
        !is_blank(value[0]),
    ensures
        replaced(replaced(t, key, value), key, value) == replaced(t, key, value),
{
    let ls = split_lines(t);
    lemma_replace_changes_one_line(t, key, value);
    if first_directive(ls, key) is Some {
        let i = first_directive(ls, key)->0;
        lemma_first_directive_found(ls, key);
        let line = ls[i];
        let kl = key.len() as int;
        let rest = line.skip(kl);
        let run = blank_run(rest);
        lemma_blank_run_bounds(rest);
        assert(run >= 1) by {
            assert(rest[0] == line[kl]);
        }
        let l = rewritten(line, key, value);
        let head = line.take(kl + run);
        assert(l == head + value);
        assert(l.take(kl) =~= key) by {
            assert(line.take(kl) == key);
            assert forall|k: int| 0 <= k < kl implies l.take(kl)[k] == key[k] by {
                assert(l[k] == line[k]);
                assert(line.take(kl)[k] == line[k]);
            }
        }
        assert(l[kl] == line[kl]);
        assert(is_directive(l, key));
        let blanks = rest.take(run as int);
        assert forall|j: int| 0 <= j < blanks.len() implies is_blank(#[trigger] blanks[j]) by {
            assert(blanks[j] == rest[j]);
        }
        assert(l.skip(kl) =~= blanks + value);
        lemma_blank_run_concat(blanks, value);
        assert(rewritten(l, key, value) =~= l);
        let r1 = replaced(t, key, value);
        let u = split_lines(r1);
        assert(u =~= ls.update(i, l));
        lemma_first_directive_kept(ls, key, i, l);
        assert(u.update(i, rewritten(u[i], key, value)) =~= u);
        lemma_split_lines_are_lines(r1);
        assert forall|j: int| 0 <= j < u.len() implies is_line(#[trigger] u[j]) by {}
        lemma_split_lines_len(r1);
        crate::text::lemma_join_split(r1);
    }
}

/// A size written as a number begins with a digit or a minus sign and is
/// a line.
pub proof fn lemma_size_text_shape(m: int)
    ensures
        size_text(m).len() > 0,
        !is_blank(size_text(m)[0]),
        is_line(size_text(m)),
{
    let a: nat = if m < 0 { (-m) as nat } else { m as nat };
    lemma_magnitude_text_shape(a);
    let t = magnitude_text(a);
    let s = size_text(m);
    if m < 0 {
        assert(s == seq!['-'] + t);
        assert forall|k: int| 0 <= k < s.len() implies s[k] != '\n' by {
            if k > 0 {
                assert(s[k] == t[k - 1]);
            }
        }
    }
}

proof fn lemma_magnitude_text_shape(m: nat)
    ensures
        magnitude_text(m).len() > 0,
        is_digit(magnitude_text(m)[0]),
        !is_blank(magnitude_text(m)[0]),
        is_line(magnitude_text(m)),
{
    lemma_digits_shape(m / 1000);
    let s = magnitude_text(m);
    let w = digits_of(m / 1000);
    assert(s[0] == w[0]);
    assert forall|k: int| 0 <= k < s.len() implies s[k] != '\n' by {
        if k < w.len() {
            assert(s[k] == w[k]);
        }
    }
}

proof fn lemma_digits_shape(n: nat)
    ensures
        digits_of(n).len() > 0,
        is_digit(digits_of(n)[0]),
        forall|k: int| 0 <= k < digits_of(n).len() ==> is_digit(#[trigger] digits_of(n)[k]),
    decreases n,
{
    if n >= 10 {
        lemma_digits_shape(n / 10);
        let d = digits_of(n / 10);
        assert forall|k: int| 0 <= k < digits_of(n).len() implies is_digit(#[trigger] digits_of(n)[k]) by {
            if k < d.len() {
                assert(digits_of(n)[k] == d[k]);
            }
        }
    }
}

/// Setting the font size twice in succession gives the text that setting it
/// once gave.
pub proof fn lemma_replace_size_idempotent(t: Seq<char>, m: int)
    ensures
        replaced(replaced(t, size_key(), size_text(m)), size_key(), size_text(m)) == replaced(
            t,
            size_key(),
            size_text(m),
        ),
{
    lemma_size_text_shape(m);
    lemma_replace_idempotent(t, size_key(), size_text(m));
}

/// `font_family X`.
pub open spec fn family_line(x: Seq<char>) -> Seq<char> {
    family_key() + seq![' '] + x
}

/// `font_size Y`.
pub open spec fn size_line(y: Seq<char>) -> Seq<char> {
    size_key() + seq![' '] + y
}

proof fn lemma_directive_line(key: Seq<char>, v: Seq<char>)
    requires
        trim(v) == v,
    ensures
        is_directive(key + seq![' '] + v, key),
        directive_value(key + seq![' '] + v, key) == v,
{
    let l = key + seq![' '] + v;
    assert(l.take(key.len() as int) =~= key);
    assert(l[key.len() as int] == ' ');
    assert(l.skip(key.len() as int) =~= seq![' '] + v);
    assert((seq![' '] + v).drop_first() =~= v);
    assert(trim_start(seq![' '] + v) == trim_start(v));
}

proof fn lemma_other_key(y: Seq<char>, x: Seq<char>)
    ensures
        !is_directive(size_line(y), family_key()),
        !is_directive(family_line(x), size_key()),
{
    let s = size_line(y);
    if s.len() > family_key().len() {
        assert(s.take(11)[5] == 's');
        assert(family_key()[5] == 'f');
    }
    let f = family_line(x);
    if f.len() > size_key().len() {
        assert(f.take(9)[5] == 'f');
        assert(size_key()[5] == 's');
    }
}

proof fn lemma_line_concat(key: Seq<char>, v: Seq<char>)
    requires
        is_line(key),
        is_line(v),
    ensures
        is_line(key + seq![' '] + v),
{
    let l = key + seq![' '] + v;
    assert forall|k: int| 0 <= k < l.len() implies l[k] != '\n' by {
        if k < key.len() {
            assert(l[k] == key[k]);
        } else if k > key.len() {
            assert(l[k] == v[k - key.len() - 1]);
        }
    }
}

/// A configuration text of the lines `font_family X` and `font_size Y`
/// reads as family X and size Y, where Y is a number; with only the family
/// line the size reads `default`, with only the size line the family reads
/// empty.
pub proof fn lemma_read_directives(x: Seq<char>, y: Seq<char>)
    requires
        is_line(x),
        trim(x) == x,
        is_line(y),
        trim(y) == y,
        is_float_text(y),
    ensures
        family_of(join_lines(seq![family_line(x), size_line(y)])) == x,
        size_text_of(join_lines(seq![family_line(x), size_line(y)])) == y,
        family_of(family_line(x)) == x,
        size_text_of(family_line(x)) == default_size_text(),
        family_of(size_line(y)) == Seq::<char>::empty(),
        size_text_of(size_line(y)) == y,
{
    let f = family_line(x);
    let s = size_line(y);
    assert(is_line(family_key()) && is_line(size_key())) by {
        assert forall|k: int| 0 <= k < family_key().len() implies family_key()[k] != '\n' by {}
        assert forall|k: int| 0 <= k < size_key().len() implies size_key()[k] != '\n' by {}
    }
    lemma_line_concat(family_key(), x);
    lemma_line_concat(size_key(), y);
    lemma_directive_line(family_key(), x);
    lemma_directive_line(size_key(), y);
    lemma_other_key(y, x);
    let both = seq![f, s];
    assert forall|i: int| 0 <= i < both.len() implies is_line(#[trigger] both[i]) by {}
    lemma_split_join(both);
    assert(both.drop_last() =~= seq![f]);
    assert(seq![f].drop_last() =~= Seq::<Seq<char>>::empty());
    lemma_split_join(seq![f]);
    lemma_split_join(seq![s]);
    assert(seq![s].drop_last() =~= Seq::<Seq<char>>::empty());
    assert(join_lines(seq![f]) == f);
    assert(join_lines(seq![s]) == s);
    assert(both.last() == s);
    assert(seq![f].last() == f);
    assert(last_directive(both, family_key()) == last_directive(seq![f], family_key()));
    assert(last_directive(seq![f], family_key()) == Some(x));
    assert(last_directive(seq![f], size_key()) == last_directive(Seq::<Seq<char>>::empty(), size_key()));
    assert(seq![s].last() == s);
    assert(last_directive(seq![s], family_key()) == last_directive(Seq::<Seq<char>>::empty(), family_key()));
}

} // verus!
