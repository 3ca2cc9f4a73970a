//! The terminal's configuration text: reading the font directives and
//! rewriting one of them.

use vstd::prelude::*;
use crate::size::{is_float, is_float_text};
use crate::text::{
    blank, is_blank, join_lines, join_text, slice_chars, split_lines, split_text, trim,
    trimmed, views,
};

verus! {

/// The key of the font family directive.
pub open spec fn family_key() -> Seq<char> {
    seq!['f', 'o', 'n', 't', '_', 'f', 'a', 'm', 'i', 'l', 'y']
}

/// The key of the font size directive.
pub open spec fn size_key() -> Seq<char> {
    seq!['f', 'o', 'n', 't', '_', 's', 'i', 'z', 'e']
}

/// What the size reads as when the file gives no valid one.
pub open spec fn default_size_text() -> Seq<char> {
    seq!['d', 'e', 'f', 'a', 'u', 'l', 't']
}

/// A line that sets `key`: the key at the start of the line, then whitespace.
pub open spec fn is_directive(line: Seq<char>, key: Seq<char>) -> bool {
    line.len() > key.len() && line.take(key.len() as int) == key && is_blank(line[key.len() as int])
}

/// The value a directive line gives: what follows the key, trimmed.
pub open spec fn directive_value(line: Seq<char>, key: Seq<char>) -> Seq<char> {
    trim(line.skip(key.len() as int))
}

/// The value of the last line among `ls` that sets `key`.
pub open spec fn last_directive(ls: Seq<Seq<char>>, key: Seq<char>) -> Option<Seq<char>>
    decreases ls.len(),
{
    if ls.len() == 0 {
        None
    } else if is_directive(ls.last(), key) {
        Some(directive_value(ls.last(), key))
    } else {
        last_directive(ls.drop_last(), key)
    }
}

/// The index of the first line among `ls` that sets `key`.
pub open spec fn first_directive(ls: Seq<Seq<char>>, key: Seq<char>) -> Option<int>
    decreases ls.len(),
{
    if ls.len() == 0 {
        None
    } else {
        match first_directive(ls.drop_last(), key) {
            Some(i) => Some(i),
            None => if is_directive(ls.last(), key) {
                Some(ls.len() - 1)
            } else {
                None
            },
        }
    }
}

/// The number of whitespace characters at the start of `s`.
pub open spec fn blank_run(s: Seq<char>) -> nat
    decreases s.len(),
{
    if s.len() > 0 && is_blank(s[0]) {
        1 + blank_run(s.drop_first())
    } else {
        0
    }
}

/// A directive line with its value replaced: the key and the whitespace after
/// it stay, the rest of the line becomes `value`.
pub open spec fn rewritten(line: Seq<char>, key: Seq<char>, value: Seq<char>) -> Seq<char> {
    line.take(key.len() + blank_run(line.skip(key.len() as int)) as int) + value
}

/// The text with the first line that sets `key` given `value`; the text as
/// it is where no line sets `key`.
pub open spec fn replaced(t: Seq<char>, key: Seq<char>, value: Seq<char>) -> Seq<char> {
    let ls = split_lines(t);
    match first_directive(ls, key) {
        Some(i) => join_lines(ls.update(i, rewritten(ls[i], key, value))),
        None => t,
    }
}

/// The font family that a configuration text sets; empty where none.
pub open spec fn family_of(t: Seq<char>) -> Seq<char> {
    match last_directive(split_lines(t), family_key()) {
        Some(v) => v,
        None => Seq::<char>::empty(),
    }
}

/// The font size text that a configuration text sets: the value of the last
/// size line where that is a number as a floating point parse reads it, else
/// `default`.
pub open spec fn size_text_of(t: Seq<char>) -> Seq<char> {
    match last_directive(split_lines(t), size_key()) {
        Some(v) => if is_float_text(v) {
            v
        } else {
            default_size_text()
        },
        None => default_size_text(),
    }
}

/// The key of the font family directive.
pub fn family_key_chars() -> (r: Vec<char>)
    ensures
        r@ == family_key(),
{
    let r = vec!['f', 'o', 'n', 't', '_', 'f', 'a', 'm', 'i', 'l', 'y'];
    assert(r@ =~= family_key());
    r
}

/// The key of the font size directive.
pub fn size_key_chars() -> (r: Vec<char>)
    ensures
        r@ == size_key(),
{
    let r = vec!['f', 'o', 'n', 't', '_', 's', 'i', 'z', 'e'];
    assert(r@ =~= size_key());
    r
}

/// `default`.
pub fn default_size_chars() -> (r: Vec<char>)
    ensures
        r@ == default_size_text(),
{
    let r = vec!['d', 'e', 'f', 'a', 'u', 'l', 't'];
    assert(r@ =~= default_size_text());
    r
}

/// Whether `line` sets `key`.
pub fn directive_at(line: &[char], key: &[char]) -> (r: bool)
    ensures
        r == is_directive(line@, key@),
{
    if line.len() <= key.len() {
        return false;
    }
    let mut i: usize = 0;
    while i < key.len()
        invariant
            i <= key@.len() < line@.len(),
            line@.take(i as int) == key@.take(i as int),
        decreases key.len() - i,
    {
        if line[i] != key[i] {
            assert(line@.take(key@.len() as int)[i as int] != key@[i as int]);
            return false;
        }
        i = i + 1;
        assert(line@.take(i as int) =~= key@.take(i as int));
    }
    assert(key@.take(key@.len() as int) =~= key@);
    blank(line[key.len()])
}

/// The value a directive line gives.
pub fn value_of(line: &[char], key: &[char]) -> (r: Vec<char>)
    requires
        key@.len() <= line@.len(),
    ensures
        r@ == directive_value(line@, key@),
{
    let rest = slice_chars(line, key.len(), line.len());
    assert(rest@ =~= line@.skip(key@.len() as int));
    trimmed(rest.as_slice())
}

/// `line` with its value replaced.
pub fn rewrite_line(line: &[char], key: &[char], value: &[char]) -> (r: Vec<char>)
    requires
        key@.len() <= line@.len(),
    ensures
        r@ == rewritten(line@, key@, value@),
{
    let ghost rest = line@.skip(key@.len() as int);
    let mut end: usize = key.len();
    assert(rest.skip(0) =~= rest);
    while end < line.len() && blank(line[end])
        invariant
            key@.len() <= end <= line@.len(),
            rest == line@.skip(key@.len() as int),
            blank_run(rest) == (end - key@.len()) + blank_run(rest.skip(end - key@.len())),
        decreases line.len() - end,
    {
        assert(rest.skip(end - key@.len()).drop_first() =~= rest.skip(end - key@.len() + 1));
        end = end + 1;
    }
    assert(blank_run(rest.skip(end - key@.len())) == 0) by {
        if end < line@.len() {
            assert(rest.skip(end - key@.len())[0] == line@[end as int]);
        }
    }
    let mut r = slice_chars(line, 0, end);
    let mut i: usize = 0;
    let ghost head = r@;
    while i < value.len()
        invariant
            i <= value@.len(),
            r@ == head + value@.take(i as int),
        decreases value.len() - i,
    {
        r.push(value[i]);
        i = i + 1;
        assert(r@ =~= head + value@.take(i as int));
    }
    assert(value@.take(value@.len() as int) =~= value@);
    assert(line@.subrange(0, end as int) =~= line@.take(end as int));
    r
}

/// The text with the first line that sets `key` given `value`.
pub fn replace_directive(content: &[char], key: &[char], value: &[char]) -> (r: Vec<char>)
    ensures
        r@ == replaced(content@, key@, value@),
{
    let mut ls = split_text(content);
    let ghost orig = views(ls@);
    let mut i: usize = 0;
    assert(orig.take(0) =~= Seq::<Seq<char>>::empty());
    while i < ls.len()
        invariant
            i <= ls@.len(),
            views(ls@) == orig,
            orig == split_lines(content@),
            first_directive(orig.take(i as int), key@) is None,
        decreases ls.len() - i,
    {
        assert(orig.take(i + 1).drop_last() =~= orig.take(i as int));
        assert(orig.take(i + 1).last() == ls@[i as int]@);
        if directive_at(ls[i].as_slice(), key) {
            let line = rewrite_line(ls[i].as_slice(), key, value);
            ls.set(i, line);
            proof {
                lemma_first_directive_prefix(orig, key@, i as int);
            }
            assert(views(ls@) =~= orig.update(i as int, rewritten(orig[i as int], key@, value@)));
            return join_text(&ls);
        }
        i = i + 1;
    }
    assert(orig.take(ls@.len() as int) =~= orig);
    let mut r: Vec<char> = Vec::new();
    let mut j: usize = 0;
    while j < content.len()
        invariant
            j <= content@.len(),
            r@ == content@.take(j as int),
        decreases content.len() - j,
    {
        r.push(content[j]);
        j = j + 1;
        assert(r@ =~= content@.take(j as int));
    }
    assert(content@.take(content@.len() as int) =~= content@);
    r
}

/// The view of an optional character vector.
pub open spec fn opt_view(o: Option<Vec<char>>) -> Option<Seq<char>> {
    match o {
        Some(v) => Some(v@),
        None => None,
    }
}

/// The family and the size text that a configuration text sets.
pub fn read_settings(content: &[char]) -> (r: (Vec<char>, Vec<char>))
    ensures
        r.0@ == family_of(content@),
        r.1@ == size_text_of(content@),
{
    let ls = split_text(content);
    let ghost orig = views(ls@);
    let fkey = family_key_chars();
    let skey = size_key_chars();
    let mut fam: Option<Vec<char>> = None;
    let mut size: Option<Vec<char>> = None;
    let mut i: usize = 0;
    assert(orig.take(0) =~= Seq::<Seq<char>>::empty());
    while i < ls.len()
        invariant
            i <= ls@.len(),
            views(ls@) == orig,
            orig == split_lines(content@),
            fkey@ == family_key(),
            skey@ == size_key(),
            opt_view(fam) == last_directive(orig.take(i as int), family_key()),
            opt_view(size) == last_directive(orig.take(i as int), size_key()),
        decreases ls.len() - i,
    {
        assert(orig.take(i + 1).drop_last() =~= orig.take(i as int));
        assert(orig.take(i + 1).last() == ls@[i as int]@);
        let line = ls[i].as_slice();
        if directive_at(line, fkey.as_slice()) {
            fam = Some(value_of(line, fkey.as_slice()));
        }
        if directive_at(line, skey.as_slice()) {
            size = Some(value_of(line, skey.as_slice()));
        }
        i = i + 1;
    }
    assert(orig.take(ls@.len() as int) =~= orig);
    let family = match fam {
        Some(v) => v,
        None => Vec::new(),
    };
    let size_text = match size {
        Some(v) => if is_float(v.as_slice()) {
            v
        } else {
            default_size_chars()
        },
        None => default_size_chars(),
    };
    (family, size_text)
}

/// A directive found after a run of lines without one is the first.
proof fn lemma_first_directive_prefix(ls: Seq<Seq<char>>, key: Seq<char>, i: int)
    requires
        0 <= i < ls.len(),
        first_directive(ls.take(i), key) is None,
        is_directive(ls[i], key),
    ensures
        first_directive(ls, key) == Some(i),
    decreases ls.len(),
{
    if ls.len() - 1 == i {
        assert(ls.drop_last() =~= ls.take(i));
    } else {
        assert(ls.drop_last().take(i) =~= ls.take(i));
        lemma_first_directive_prefix(ls.drop_last(), key, i);
    }
}

} // verus!
