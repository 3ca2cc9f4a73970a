//! Laying out font names in columns.

use vstd::prelude::*;
use crate::text::{chars_of, string_of, string_views};
use crate::utils::Utils;
use crate::window::{longest, longest_len};

verus! {

/// Spaces between columns.
pub const COLUMN_GAP: usize = 2;

/// `s` padded with spaces to `w` characters.
pub open spec fn padded(s: Seq<char>, w: nat) -> Seq<char> {
    if s.len() < w {
        s + Seq::new((w - s.len()) as nat, |_i: int| ' ')
    } else {
        s
    }
}

/// Names each padded to `w`, one after another.
pub open spec fn cells(ns: Seq<Seq<char>>, w: nat) -> Seq<char>
    decreases ns.len(),
{
    if ns.len() == 0 {
        Seq::empty()
    } else {
        cells(ns.drop_last(), w) + padded(ns.last(), w)
    }
}

/// One row: every name but the last padded to `w`, the last as it is.
pub open spec fn row_text(ns: Seq<Seq<char>>, w: nat) -> Seq<char> {
    if ns.len() == 0 {
        Seq::empty()
    } else {
        cells(ns.drop_last(), w) + ns.last()
    }
}

/// Names laid out in rows of `cols`, in order, each cell `w` wide.
pub open spec fn layout(ns: Seq<Seq<char>>, cols: nat, w: nat) -> Seq<Seq<char>>
    decreases ns.len(),
{
    if ns.len() == 0 || cols == 0 {
        Seq::empty()
    } else if ns.len() <= cols {
        seq![row_text(ns, w)]
    } else {
        seq![row_text(ns.take(cols as int), w)] + layout(ns.skip(cols as int), cols, w)
    }
}

/// The number of columns that fit in `total` characters when each cell is
/// `cell` wide: at least one.
pub open spec fn column_count(total: nat, cell: nat) -> nat {
    if cell == 0 || total / cell == 0 {
        1
    } else {
        total / cell
    }
}

/// Appends `s` padded to `w` to `out`.
fn push_padded(out: &mut Vec<char>, s: &[char], w: usize)
    ensures
        final(out)@ == old(out)@ + padded(s@, w as nat),
{
    let ghost start = out@;
    let mut i: usize = 0;
    while i < s.len()
        invariant
            i <= s@.len(),
            out@ == start + s@.take(i as int),
        decreases s.len() - i,
    {
        out.push(s[i]);
        i = i + 1;
        assert(out@ =~= start + s@.take(i as int));
    }
    assert(s@.take(s@.len() as int) =~= s@);
    let mut k: usize = s.len();
    let ghost mid = out@;
    while k < w
        invariant
            s@.len() <= k <= w || (k == s@.len() && k >= w),
            out@ == mid + Seq::new((k - s@.len()) as nat, |_i: int| ' '),
        decreases w - k,
    {
        out.push(' ');
        k = k + 1;
        assert(out@ =~= mid + Seq::new((k - s@.len()) as nat, |_i: int| ' '));
    }
    if s.len() >= w {
        assert(out@ =~= mid);
    }
}

/// One row of the names `ns[lo..hi]`.
fn row_of(ns: &Vec<String>, lo: usize, hi: usize, w: usize) -> (r: Vec<char>)
    requires
        lo < hi <= ns@.len(),
    ensures
        r@ == row_text(string_views(ns@).subrange(lo as int, hi as int), w as nat),
{
    let ghost all = string_views(ns@);
    let mut r: Vec<char> = Vec::new();
    let mut i: usize = lo;
    assert(all.subrange(lo as int, lo as int) =~= Seq::<Seq<char>>::empty());
    while i < hi - 1
        invariant
            lo <= i <= hi - 1,
            hi <= ns@.len(),
            all == string_views(ns@),
            r@ == cells(all.subrange(lo as int, i as int), w as nat),
        decreases hi - i,
    {
        let c = chars_of(ns[i].as_str());
        push_padded(&mut r, c.as_slice(), w);
        assert(all.subrange(lo as int, i + 1).drop_last() =~= all.subrange(lo as int, i as int));
        i = i + 1;
    }
    let last = chars_of(ns[hi - 1].as_str());
    let ghost before = r@;
    let mut j: usize = 0;
    while j < last.len()
        invariant
            j <= last@.len(),
            r@ == before + last@.take(j as int),
        decreases last.len() - j,
    {
        r.push(last[j]);
        j = j + 1;
        assert(r@ =~= before + last@.take(j as int));
    }
    assert(last@.take(last@.len() as int) =~= last@);
    let ghost sub = all.subrange(lo as int, hi as int);
    assert(sub.drop_last() =~= all.subrange(lo as int, hi - 1));
    r
}

impl Utils {
    /// The names laid out in as many columns as fit in `total_width`
    /// characters (at least one), each cell as wide as the longest name and
    /// two spaces.
    pub fn format_fonts_in_columns(fonts: &Vec<String>, total_width: usize) -> (r: Vec<String>)
        requires
            longest(string_views(fonts@), 0) + COLUMN_GAP <= usize::MAX,
        ensures
            string_views(r@) == layout(
                string_views(fonts@),
                column_count(total_width as nat, (longest(string_views(fonts@), 0) + COLUMN_GAP) as nat),
                (longest(string_views(fonts@), 0) + COLUMN_GAP) as nat,
            ),
    {
        let ghost all = string_views(fonts@);
        let longest = longest_len(fonts, 0);
        let cell = longest + COLUMN_GAP;
        let cols = if cell == 0 || total_width / cell == 0 { 1 } else { total_width / cell };
        let n = fonts.len();
        let mut out: Vec<String> = Vec::new();
        let mut start: usize = 0;
        assert(all.skip(0) =~= all);
        while start < n
            invariant
                start <= n == fonts@.len(),
                all == string_views(fonts@),
                cols >= 1,
                string_views(out@) + layout(all.skip(start as int), cols as nat, cell as nat) == layout(
                    all,
                    cols as nat,
                    cell as nat,
                ),
            decreases n - start,
        {
            let ghost rest = all.skip(start as int);
            let end = if n - start <= cols { n } else { start + cols };
            let row = row_of(fonts, start, end, cell);
            let ghost before = string_views(out@);
            out.push(string_of(row.as_slice()));
            assert(string_views(out@) =~= before.push(row@));
            if n - start <= cols {
                assert(rest =~= all.subrange(start as int, end as int));
                assert(all.skip(end as int) =~= Seq::<Seq<char>>::empty());
            } else {
                assert(rest.take(cols as int) =~= all.subrange(start as int, end as int));
                assert(rest.skip(cols as int) =~= all.skip(end as int));
            }
            assert(layout(Seq::<Seq<char>>::empty(), cols as nat, cell as nat) == Seq::<Seq<char>>::empty());
            assert(before.push(row@) + layout(all.skip(end as int), cols as nat, cell as nat) =~= before + layout(rest, cols as nat, cell as nat));
            start = end;
        }
        assert(all.skip(n as int) =~= Seq::<Seq<char>>::empty());
        assert(string_views(out@) =~= string_views(out@) + Seq::<Seq<char>>::empty());
        out
    }
}

} // verus!
