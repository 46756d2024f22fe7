//! Terminal text layout: display widths of CJK text, ANSI colour stripping,
//! padding, truncation, and a column-aligned table.
use vstd::prelude::*;
use crate::text::{chars_of, join_strings, join_with, push_char, string_from_chars, trim_end, trim_end_str, views};

verus! {

/// Terminal columns taken by `c`: two for East Asian wide and full-width
/// characters, one for every other character.
pub open spec fn char_cols(c: char) -> nat {
    let u = c as u32;
    if (0x1100 <= u <= 0x115F) || (0x2E80 <= u <= 0xA4CF) || (0xAC00 <= u <= 0xD7A3)
        || (0xF900 <= u <= 0xFAFF) || (0xFE30 <= u <= 0xFE4F) || (0xFF00 <= u <= 0xFF60)
        || (0xFFE0 <= u <= 0xFFE6) || (0x20000 <= u <= 0x3FFFD) {
        2
    } else {
        1
    }
}

/// Terminal columns taken by `s`.
pub open spec fn cols(s: Seq<char>) -> nat
    decreases s.len(),
{
    if s.len() == 0 { 0 } else { cols(s.drop_last()) + char_cols(s.last()) }
}

/// East Asian wide characters take two columns, whichever block they come
/// from: Hangul Jamo (U+1100–U+115F); the CJK radicals, symbols and
/// punctuation, kana, ideographs and Yi (U+2E80–U+A4CF, `《》【】、。` among
/// them); Hangul syllables (U+AC00–U+D7A3); compatibility ideographs
/// (U+F900–U+FAFF); vertical forms (U+FE30–U+FE4F); full-width forms
/// (U+FF00–U+FF60, U+FFE0–U+FFE6); and the supplementary ideographs
/// (U+20000–U+3FFFD). Every other character takes one column.
pub proof fn lemma_wide_characters(c: char)
    ensures
        0x1100 <= c as u32 <= 0x115F ==> cols(seq![c]) == 2,
        0x2E80 <= c as u32 <= 0xA4CF ==> cols(seq![c]) == 2,
        0xAC00 <= c as u32 <= 0xD7A3 ==> cols(seq![c]) == 2,
        0xF900 <= c as u32 <= 0xFAFF ==> cols(seq![c]) == 2,
        0xFE30 <= c as u32 <= 0xFE4F ==> cols(seq![c]) == 2,
        0xFF00 <= c as u32 <= 0xFF60 ==> cols(seq![c]) == 2,
        0xFFE0 <= c as u32 <= 0xFFE6 ==> cols(seq![c]) == 2,
        0x20000 <= c as u32 <= 0x3FFFD ==> cols(seq![c]) == 2,
        (c as u32) < 0x1100 || (0x1160 <= c as u32 && (c as u32) < 0x2E80) || (0xA4D0 <= c as u32 && (c as u32) < 0xAC00)
            || (0xD7A4 <= c as u32 && (c as u32) < 0xF900) || (0xFB00 <= c as u32 && (c as u32) < 0xFE30)
            || (0xFE50 <= c as u32 && (c as u32) < 0xFF00) || (0xFF61 <= c as u32 && (c as u32) < 0xFFE0)
            || (0xFFE7 <= c as u32 && (c as u32) < 0x20000) || 0x3FFFE <= c as u32
            ==> cols(seq![c]) == 1,
{
    lemma_cols_single(c);
}

proof fn lemma_cols_single(c: char)
    ensures
        cols(seq![c]) == char_cols(c),
{
    assert(seq![c].drop_last() =~= Seq::<char>::empty());
    assert(seq![c].last() == c);
    assert(cols(Seq::<char>::empty()) == 0);
}

pub proof fn lemma_cols_concat(a: Seq<char>, b: Seq<char>)
    ensures
        cols(a + b) == cols(a) + cols(b),
    decreases b.len(),
{
    if b.len() > 0 {
        lemma_cols_concat(a, b.drop_last());
        assert((a + b).drop_last() =~= a + b.drop_last());
    } else {
        assert(a + b =~= a);
    }
}

/// Columns taken by one character.
pub fn char_width(c: char) -> (w: usize)
    ensures
        w == char_cols(c),
{
    let u = c as u32;
    if (0x1100 <= u && u <= 0x115F) || (0x2E80 <= u && u <= 0xA4CF) || (0xAC00 <= u && u <= 0xD7A3)
        || (0xF900 <= u && u <= 0xFAFF) || (0xFE30 <= u && u <= 0xFE4F) || (0xFF00 <= u && u <= 0xFF60)
        || (0xFFE0 <= u && u <= 0xFFE6) || (0x20000 <= u && u <= 0x3FFFD) {
        2
    } else {
        1
    }
}

fn cols_of_chars(cs: &Vec<char>) -> (w: usize)
    requires
        cols(cs@) <= usize::MAX,
    ensures
        w == cols(cs@),
{
    let mut w: usize = 0;
    let mut i: usize = 0;
    while i < cs.len()
        invariant
            i <= cs@.len(),
            w == cols(cs@.take(i as int)),
            cols(cs@) <= usize::MAX,
        decreases cs@.len() - i,
    {
        proof {
            assert(cs@.take(i + 1).drop_last() =~= cs@.take(i as int));
            lemma_cols_concat(cs@.take(i + 1), cs@.skip(i + 1));
            assert(cs@.take(i + 1) + cs@.skip(i + 1) =~= cs@);
        }
        w = w + char_width(cs[i]);
        i += 1;
    }
    assert(cs@.take(cs@.len() as int) =~= cs@);
    w
}

/// Display width of `s` in terminal columns, wide characters counting two.
pub fn disp_width(s: &str) -> (w: usize)
    requires
        cols(s@) <= usize::MAX,
    ensures
        w == cols(s@),
{
    let cs = chars_of(s);
    cols_of_chars(&cs)
}

// ---------- ANSI escapes ----------

/// What remains of `s` once escape sequences are dropped, reading from state
/// `in_esc`: an ESC character opens a sequence and an `m` closes it.
pub open spec fn strip_from(s: Seq<char>, in_esc: bool) -> Seq<char>
    decreases s.len(),
{
    if s.len() == 0 {
        Seq::empty()
    } else if in_esc {
        strip_from(s.drop_first(), s[0] != 'm')
    } else if s[0] == '\u{1b}' {
        strip_from(s.drop_first(), true)
    } else {
        seq![s[0]] + strip_from(s.drop_first(), false)
    }
}

/// Whether an escape sequence is still open after reading `s` from state `in_esc`.
pub open spec fn esc_open_after(s: Seq<char>, in_esc: bool) -> bool
    decreases s.len(),
{
    if s.len() == 0 {
        in_esc
    } else if in_esc {
        esc_open_after(s.drop_first(), s[0] != 'm')
    } else {
        esc_open_after(s.drop_first(), s[0] == '\u{1b}')
    }
}

/// `s` without its ANSI escape sequences.
pub open spec fn stripped(s: Seq<char>) -> Seq<char> {
    strip_from(s, false)
}

/// Columns that `s` takes on a terminal that interprets its escape sequences.
pub open spec fn visible_cols(s: Seq<char>) -> nat {
    cols(stripped(s))
}

pub proof fn lemma_strip_concat(a: Seq<char>, b: Seq<char>, st: bool)
    ensures
        strip_from(a + b, st) == strip_from(a, st) + strip_from(b, esc_open_after(a, st)),
    decreases a.len(),
{
    if a.len() == 0 {
        assert(a + b =~= b);
        assert(strip_from(a, st) =~= Seq::<char>::empty());
    } else {
        assert((a + b).drop_first() =~= a.drop_first() + b);
        assert((a + b)[0] == a[0]);
        let st2 = if st { a[0] != 'm' } else { a[0] == '\u{1b}' };
        lemma_strip_concat(a.drop_first(), b, st2);
        if !st && a[0] != '\u{1b}' {
            assert(strip_from(a + b, st) =~= strip_from(a, st) + strip_from(b, esc_open_after(a, st)));
        }
    }
}

proof fn lemma_strip_no_esc(s: Seq<char>, st: bool)
    ensures
        forall|i: int| 0 <= i < strip_from(s, st).len() ==> strip_from(s, st)[i] != '\u{1b}',
        cols(strip_from(s, st)) <= cols(s),
    decreases s.len(),
{
    if s.len() > 0 {
        let st2 = if st { s[0] != 'm' } else { s[0] == '\u{1b}' };
        lemma_strip_no_esc(s.drop_first(), st2);
        assert(s =~= seq![s[0]] + s.drop_first());
        lemma_cols_concat(seq![s[0]], s.drop_first());
        lemma_cols_single(s[0]);
        if !st && s[0] != '\u{1b}' {
            let t = strip_from(s.drop_first(), false);
            lemma_cols_concat(seq![s[0]], t);
            assert forall|i: int| 0 <= i < (seq![s[0]] + t).len() implies (seq![s[0]] + t)[i] != '\u{1b}' by {
                if i > 0 {
                    assert((seq![s[0]] + t)[i] == t[i - 1]);
                }
            }
        }
    }
}

proof fn lemma_strip_plain(s: Seq<char>)
    requires
        forall|i: int| 0 <= i < s.len() ==> s[i] != '\u{1b}',
    ensures
        strip_from(s, false) == s,
        !esc_open_after(s, false),
    decreases s.len(),
{
    if s.len() > 0 {
        lemma_strip_plain(s.drop_first());
        assert(s =~= seq![s[0]] + s.drop_first());
    }
}

/// Stripping escape sequences a second time changes nothing.
pub proof fn lemma_strip_idempotent(s: Seq<char>)
    ensures
        stripped(stripped(s)) == stripped(s),
        visible_cols(s) <= cols(s),
{
    lemma_strip_no_esc(s, false);
    lemma_strip_plain(stripped(s));
}

/// `s` without its ANSI escape sequences (an ESC character up to and including the next `m`).
pub fn strip_ansi(s: &str) -> (out: String)
    ensures
        out@ == stripped(s@),
{
    let cs = chars_of(s);
    let mut out = String::new();
    let mut in_esc = false;
    let mut i: usize = 0;
    assert(cs@.skip(0) =~= cs@);
    while i < cs.len()
        invariant
            i <= cs@.len(),
            out@ + strip_from(cs@.skip(i as int), in_esc) == strip_from(cs@, false),
        decreases cs@.len() - i,
    {
        let c = cs[i];
        proof {
            let t = cs@.skip(i as int);
            assert(t.drop_first() =~= cs@.skip(i + 1));
            assert(t[0] == c);
        }
        if in_esc {
            if c == 'm' {
                in_esc = false;
            }
        } else if c == '\u{1b}' {
            in_esc = true;
        } else {
            let ghost before = out@;
            push_char(&mut out, c);
            assert(before + (seq![c] + strip_from(cs@.skip(i + 1), false)) =~= out@ + strip_from(cs@.skip(i + 1), false));
        }
        i += 1;
    }
    assert(cs@.skip(cs@.len() as int) =~= Seq::<char>::empty());
    assert(out@ + Seq::<char>::empty() =~= out@);
    out
}

// ---------- padding and truncation ----------

/// Cell alignment within a column.
#[derive(Clone, Copy, Debug)]
pub enum Align {
    Left,
    Right,
}

/// `k` spaces.
pub open spec fn spaces(k: int) -> Seq<char> {
    Seq::new(if k > 0 { k as nat } else { 0 }, |i: int| ' ')
}

/// `s` filled with spaces, after it or before it, up to `w` visible columns.
pub open spec fn padded(s: Seq<char>, w: int, a: Align) -> Seq<char> {
    let fill = w - visible_cols(s);
    match a {
        Align::Left => s + spaces(fill),
        Align::Right => spaces(fill) + s,
    }
}

proof fn lemma_spaces(k: int)
    ensures
        stripped(spaces(k)) == spaces(k),
        !esc_open_after(spaces(k), false),
        cols(spaces(k)) == (if k > 0 { k } else { 0 }),
    decreases (if k > 0 { k } else { 0 }),
{
    lemma_strip_plain(spaces(k));
    if k > 0 {
        lemma_spaces(k - 1);
        assert(spaces(k).drop_last() =~= spaces(k - 1));
    }
}

/// A padded cell takes the larger of its own visible width and `w`: every cell
/// padded to the column width takes exactly that width, provided a
/// left-aligned cell leaves no escape sequence open.
pub proof fn lemma_padded_cols(s: Seq<char>, w: int, a: Align)
    requires
        (a matches Align::Left) ==> !esc_open_after(s, false),
    ensures
        visible_cols(padded(s, w, a)) == (if w > visible_cols(s) { w } else { visible_cols(s) as int }),
{
    let fill = w - visible_cols(s);
    lemma_spaces(fill);
    match a {
        Align::Left => {
            lemma_strip_concat(s, spaces(fill), false);
            lemma_cols_concat(stripped(s), spaces(fill));
        },
        Align::Right => {
            lemma_strip_concat(spaces(fill), s, false);
            lemma_cols_concat(spaces(fill), stripped(s));
        },
    }
}

fn spaces_string(k: usize) -> (s: String)
    ensures
        s@ == spaces(k as int),
{
    let mut s = String::new();
    let mut i: usize = 0;
    while i < k
        invariant
            i <= k,
            s@ == spaces(i as int),
        decreases k - i,
    {
        push_char(&mut s, ' ');
        assert(spaces(i + 1) =~= spaces(i as int).push(' '));
        i += 1;
    }
    s
}

/// Pads `s` with spaces up to `w` visible columns, on the side opposite its alignment.
pub fn pad(s: &str, w: usize, a: &Align) -> (r: String)
    requires
        visible_cols(s@) <= usize::MAX,
    ensures
        r@ == padded(s@, w as int, *a),
{
    let plain = strip_ansi(s);
    let vis = disp_width(plain.as_str());
    let fill = w.saturating_sub(vis);
    let sp = spaces_string(fill);
    assert(spaces(fill as int) =~= spaces(w - vis));
    match a {
        Align::Left => {
            let mut r = string_from_chars(chars_of(s).as_slice());
            crate::text::push_str(&mut r, sp.as_str());
            r
        },
        Align::Right => {
            let mut r = sp;
            crate::text::push_str(&mut r, s);
            r
        },
    }
}

/// How many leading characters of `s` fit in `max` columns, taking them in order
/// and stopping at the first that does not fit.
pub open spec fn fit_len(s: Seq<char>, max: int) -> nat
    decreases s.len(),
{
    if s.len() == 0 || char_cols(s[0]) > max {
        0
    } else {
        1 + fit_len(s.drop_first(), max - char_cols(s[0]))
    }
}

/// `s` cut to `max` columns: whole when it fits, else the characters that fit followed by `…`.
pub open spec fn truncated(s: Seq<char>, max: int) -> Seq<char> {
    if fit_len(s, max) == s.len() {
        s
    } else {
        s.take(fit_len(s, max) as int).push('…')
    }
}

proof fn lemma_fit_len(s: Seq<char>, max: int)
    ensures
        fit_len(s, max) <= s.len(),
        max >= 0 ==> cols(s.take(fit_len(s, max) as int)) <= max,
        fit_len(s, max) < s.len() ==> cols(s.take(fit_len(s, max) as int + 1)) > max,
        max >= 0 ==> (fit_len(s, max) == s.len() <==> cols(s) <= max),
    decreases s.len(),
{
    if s.len() > 0 {
        let c = s[0];
        let rest = s.drop_first();
        lemma_fit_len(rest, max - char_cols(c));
        let k: int = fit_len(rest, max - char_cols(c)) as int;
        lemma_cols_single(c);
        lemma_cols_concat(seq![c], rest);
        assert(s =~= seq![c] + rest);
        if char_cols(c) <= max {
            lemma_cols_concat(seq![c], rest.take(k));
            assert(s.take(k + 1) =~= seq![c] + rest.take(k));
            if k < rest.len() {
                lemma_cols_concat(seq![c], rest.take(k + 1));
                assert(s.take(k + 2) =~= seq![c] + rest.take(k + 1));
            }
        } else {
            assert(s.take(1) =~= seq![c]);
            assert(s.take(0) =~= Seq::<char>::empty());
        }
    } else {
        assert(s.take(0) =~= s);
    }
}

/// Cuts `s` to at most `max_width` columns, marking a cut with `…`.
/// The characters kept take at most `max_width` columns, and the first one
/// dropped would not have fitted.
pub fn truncate(s: &str, max_width: usize) -> (r: String)
    ensures
        r@ == truncated(s@, max_width as int),
        cols(s@.take(fit_len(s@, max_width as int) as int)) <= max_width,
        fit_len(s@, max_width as int) < s@.len() ==> cols(s@.take(fit_len(s@, max_width as int) as int + 1)) > max_width,
        cols(s@) <= max_width ==> r@ == s@,
        cols(s@) > max_width ==> r@ == s@.take(fit_len(s@, max_width as int) as int).push('…'),
{
    proof {
        lemma_fit_len(s@, max_width as int);
    }
    let cs = chars_of(s);
    let mut out = String::new();
    let mut w: usize = 0;
    let mut i: usize = 0;
    assert(cs@.skip(0) =~= cs@);
    while i < cs.len()
        invariant
            i <= cs@.len(),
            cs@ == s@,
            w <= max_width,
            out@ == cs@.take(i as int),
            fit_len(cs@, max_width as int) == i + fit_len(cs@.skip(i as int), max_width - w),
        decreases cs@.len() - i,
    {
        let c = cs[i];
        let cw = char_width(c);
        proof {
            assert(cs@.skip(i as int)[0] == c);
            assert(cs@.skip(i as int).drop_first() =~= cs@.skip(i + 1));
        }
        if cw > max_width - w {
            push_char(&mut out, '…');
            proof {
                assert(fit_len(cs@, max_width as int) == i);
                lemma_fit_len(s@, max_width as int);
            }
            return out;
        }
        push_char(&mut out, c);
        assert(cs@.take(i + 1) =~= cs@.take(i as int).push(c));
        w = w + cw;
        i += 1;
    }
    assert(cs@.take(cs@.len() as int) =~= cs@);
    out
}

// ---------- table ----------

/// A simple table: header cells, one alignment per column, and rows of cells.
pub struct Table {
    headers: Vec<String>,
    aligns: Vec<Align>,
    rows: Vec<Vec<String>>,
}

/// Contents of a table: header cells, alignments, and rows of cells.
pub struct TableView {
    pub headers: Seq<Seq<char>>,
    pub aligns: Seq<Align>,
    pub rows: Seq<Seq<Seq<char>>>,
}

impl View for Table {
    type V = TableView;

    closed spec fn view(&self) -> TableView {
        TableView {
            headers: views(self.headers@),
            aligns: self.aligns@,
            rows: Seq::new(self.rows@.len(), |k: int| views(self.rows@[k]@)),
        }
    }
}

/// Width of column `i` over the header and the first `n` rows: the header's
/// width and the visible width of each row's cell in that column, whichever is largest.
pub open spec fn col_width_upto(t: TableView, i: int, n: int) -> int
    decreases n,
{
    if n <= 0 {
        cols(t.headers[i]) as int
    } else {
        let w = col_width_upto(t, i, n - 1);
        let r = t.rows[n - 1];
        if i < r.len() && visible_cols(r[i]) > w { visible_cols(r[i]) as int } else { w }
    }
}

pub open spec fn col_width(t: TableView, i: int) -> int {
    col_width_upto(t, i, t.rows.len() as int)
}

/// Two spaces, the gap between columns.
pub open spec fn gap() -> Seq<char> {
    seq![' ', ' ']
}

/// The character sequences of a sequence of string slices.
pub open spec fn str_views(v: Seq<&str>) -> Seq<Seq<char>> {
    Seq::new(v.len(), |i: int| v[i]@)
}

/// The first `n` cells of `cells`, each padded to its column's width.
pub open spec fn padded_cells(t: TableView, cells: Seq<Seq<char>>, n: int) -> Seq<Seq<char>> {
    Seq::new(n as nat, |i: int| padded(cells[i], col_width(t, i), t.aligns[i]))
}

pub open spec fn min_int(a: int, b: int) -> int {
    if a < b { a } else { b }
}

/// The header line: every header padded to its column, separated by two spaces.
pub open spec fn header_line(t: TableView) -> Seq<char> {
    join_with(padded_cells(t, t.headers, t.headers.len() as int), gap())
}

/// A row line: the row's cells, as far as there are columns, padded and
/// separated like the header, with trailing whitespace removed.
pub open spec fn row_line(t: TableView, r: Seq<Seq<char>>) -> Seq<char> {
    trim_end(join_with(padded_cells(t, r, min_int(r.len() as int, t.headers.len() as int)), gap()))
}

/// The table can be laid out: an alignment for every column, and widths that fit a `usize`.
pub open spec fn renderable(t: TableView) -> bool {
    &&& t.aligns.len() >= t.headers.len()
    &&& forall|i: int| 0 <= i < t.headers.len() ==> cols(#[trigger] t.headers[i]) <= usize::MAX
    &&& forall|k: int, i: int|
        0 <= k < t.rows.len() && 0 <= i < t.rows[k].len() && i < t.headers.len()
            ==> visible_cols(#[trigger] t.rows[k][i]) <= usize::MAX
}

proof fn lemma_col_width_bounds(t: TableView, i: int, n: int)
    requires
        renderable(t),
        0 <= i < t.headers.len(),
        0 <= n <= t.rows.len(),
    ensures
        cols(t.headers[i]) <= col_width_upto(t, i, n) <= usize::MAX,
        forall|k: int| 0 <= k < n && i < #[trigger] t.rows[k].len() ==> visible_cols(t.rows[k][i]) <= col_width_upto(t, i, n),
    decreases n,
{
    if n > 0 {
        lemma_col_width_bounds(t, i, n - 1);
    }
}

impl Table {
    /// A table with the given header cells and alignments, and no rows.
    pub fn new(headers: &[&str], aligns: Vec<Align>) -> (t: Table)
        ensures
            t@.headers == str_views(headers@),
            t@.aligns == aligns@,
            t@.rows == Seq::<Seq<Seq<char>>>::empty(),
    {
        let mut hs: Vec<String> = Vec::new();
        let mut i: usize = 0;
        while i < headers.len()
            invariant
                i <= headers@.len(),
                hs@.len() == i,
                views(hs@) == str_views(headers@).take(i as int),
            decreases headers@.len() - i,
        {
            let h = headers[i].to_owned();
            hs.push(h);
            assert(views(hs@) =~= str_views(headers@).take(i + 1));
            i += 1;
        }
        assert(str_views(headers@).take(headers@.len() as int) =~= str_views(headers@));
        let t = Table { headers: hs, aligns, rows: Vec::new() };
        assert(t@.rows =~= Seq::<Seq<Seq<char>>>::empty());
        t
    }

    /// Appends a row of cells.
    pub fn row(&mut self, cells: Vec<String>)
        ensures
            final(self)@.headers == old(self)@.headers,
            final(self)@.aligns == old(self)@.aligns,
            final(self)@.rows == old(self)@.rows.push(views(cells@)),
    {
        self.rows.push(cells);
        assert(self@.rows =~= old(self)@.rows.push(views(cells@)));
    }

    /// The widths of the columns.
    fn widths(&self) -> (ws: Vec<usize>)
        requires
            renderable(self@),
        ensures
            ws@.len() == self@.headers.len(),
            forall|i: int| 0 <= i < ws@.len() ==> ws@[i] == col_width(self@, i),
    {
        let ghost t = self@;
        let ncol = self.headers.len();
        let mut ws: Vec<usize> = Vec::new();
        let mut i: usize = 0;
        while i < ncol
            invariant
                i <= ncol,
                ncol == t.headers.len(),
                t == self@,
                renderable(t),
                ws@.len() == i,
                forall|j: int| 0 <= j < i ==> ws@[j] == col_width_upto(t, j, 0),
            decreases ncol - i,
        {
            assert(self.headers@[i as int]@ == t.headers[i as int]);
            ws.push(disp_width(self.headers[i].as_str()));
            i += 1;
        }
        let mut k: usize = 0;
        while k < self.rows.len()
            invariant
                k <= self.rows@.len(),
                ncol == t.headers.len(),
                t == self@,
                t.rows.len() == self.rows@.len(),
                renderable(t),
                ws@.len() == ncol,
                forall|j: int| 0 <= j < ncol ==> ws@[j] == col_width_upto(t, j, k as int),
            decreases self.rows@.len() - k,
        {
            let row = &self.rows[k];
            let n = if row.len() < ncol { row.len() } else { ncol };
            let mut j: usize = 0;
            assert(t.rows[k as int].len() == row@.len());
            while j < n
                invariant
                    j <= n,
                    n <= ncol,
                    n <= row@.len(),
                    ncol == t.headers.len(),
                    t == self@,
                    row == &self.rows@[k as int],
                    k < self.rows@.len(),
                    t.rows[k as int].len() == row@.len(),
                    renderable(t),
                    ws@.len() == ncol,
                    forall|x: int| 0 <= x < j ==> ws@[x] == col_width_upto(t, x, k + 1),
                    forall|x: int| j <= x < ncol ==> ws@[x] == col_width_upto(t, x, k as int),
                decreases n - j,
            {
                assert(row@[j as int]@ == t.rows[k as int][j as int]);
                let plain = strip_ansi(row[j].as_str());
                let vw = disp_width(plain.as_str());
                if vw > ws[j] {
                    ws.set(j, vw);
                }
                j += 1;
            }
            assert forall|x: int| n <= x < ncol implies ws@[x] == col_width_upto(t, x, k + 1) by {}
            k += 1;
        }
        ws
    }

    /// Lays the table out as text lines: the header line, then one line per row.
    /// Every cell is padded to its column's width, the largest width of the
    /// column's header and cells (escape sequences not counted).
    pub fn render(&self) -> (lines: Vec<String>)
        requires
            renderable(self@),
        ensures
            lines@.len() == self@.rows.len() + 1,
            lines@[0]@ == header_line(self@),
            forall|k: int| 0 <= k < self@.rows.len() ==> #[trigger] lines@[k + 1]@ == row_line(self@, self@.rows[k]),
    {
        let ghost t = self@;
        let ws = self.widths();
        let ncol = self.headers.len();
        proof {
            assert forall|i: int| 0 <= i < ncol implies visible_cols(#[trigger] t.headers[i]) <= usize::MAX by {
                lemma_strip_idempotent(t.headers[i]);
            }
        }
        let mut cells: Vec<String> = Vec::new();
        let mut i: usize = 0;
        while i < ncol
            invariant
                i <= ncol,
                ncol == t.headers.len(),
                t == self@,
                renderable(t),
                ws@.len() == ncol,
                forall|x: int| 0 <= x < ncol ==> ws@[x] == col_width(t, x),
                forall|x: int| 0 <= x < ncol ==> visible_cols(#[trigger] t.headers[x]) <= usize::MAX,
                cells@.len() == i,
                views(cells@) == padded_cells(t, t.headers, i as int),
            decreases ncol - i,
        {
            assert(self.headers@[i as int]@ == t.headers[i as int]);
            let c = pad(self.headers[i].as_str(), ws[i], &self.aligns[i]);
            let ghost before = cells@;
            cells.push(c);
            assert forall|x: int| 0 <= x < i implies views(cells@)[x] == padded_cells(t, t.headers, i + 1)[x] by {
                assert(views(before)[x] == padded_cells(t, t.headers, i as int)[x]);
            }
            assert(views(cells@)[i as int] == padded_cells(t, t.headers, i + 1)[i as int]);
            assert(views(cells@) =~= padded_cells(t, t.headers, i + 1));
            i += 1;
        }
        let header = join_strings(&cells, "  ");
        proof {
            reveal_strlit("  ");
            assert("  "@ =~= gap());
        }
        let mut lines: Vec<String> = Vec::new();
        lines.push(header);
        let mut k: usize = 0;
        while k < self.rows.len()
            invariant
                k <= self.rows@.len(),
                ncol == t.headers.len(),
                t == self@,
                t.rows.len() == self.rows@.len(),
                renderable(t),
                ws@.len() == ncol,
                forall|x: int| 0 <= x < ncol ==> ws@[x] == col_width(t, x),
                lines@.len() == k + 1,
                lines@[0]@ == header_line(t),
                forall|q: int| 0 <= q < k ==> #[trigger] lines@[q + 1]@ == row_line(t, t.rows[q]),
            decreases self.rows@.len() - k,
        {
            let row = &self.rows[k];
            let n = if row.len() < ncol { row.len() } else { ncol };
            assert(t.rows[k as int].len() == row@.len());
            let mut rcells: Vec<String> = Vec::new();
            let mut j: usize = 0;
            while j < n
                invariant
                    j <= n,
                    n <= ncol,
                    n <= row@.len(),
                    ncol == t.headers.len(),
                    t == self@,
                    row == &self.rows@[k as int],
                    k < self.rows@.len(),
                    t.rows[k as int].len() == row@.len(),
                    renderable(t),
                    ws@.len() == ncol,
                    forall|x: int| 0 <= x < ncol ==> ws@[x] == col_width(t, x),
                    rcells@.len() == j,
                    views(rcells@) == padded_cells(t, t.rows[k as int], j as int),
                decreases n - j,
            {
                assert(row@[j as int]@ == t.rows[k as int][j as int]);
                let c = pad(row[j].as_str(), ws[j], &self.aligns[j]);
                let ghost before = rcells@;
                rcells.push(c);
                assert forall|x: int| 0 <= x < j implies views(rcells@)[x] == padded_cells(t, t.rows[k as int], j + 1)[x] by {
                    assert(views(before)[x] == padded_cells(t, t.rows[k as int], j as int)[x]);
                }
                assert(views(rcells@)[j as int] == padded_cells(t, t.rows[k as int], j + 1)[j as int]);
                assert(views(rcells@) =~= padded_cells(t, t.rows[k as int], j + 1));
                j += 1;
            }
            let joined = join_strings(&rcells, "  ");
            proof {
                reveal_strlit("  ");
                assert("  "@ =~= gap());
                assert(views(rcells@) =~= padded_cells(t, t.rows[k as int], n as int));
            }
            let line = trim_end_str(joined.as_str());
            lines.push(line);
            assert(lines@[k + 1]@ == row_line(t, t.rows[k as int]));
            k += 1;
        }
        lines
    }
}

/// Columns line up: within a rendered table, every padded cell of column `i`
/// (the header and each row's cell there) takes exactly the column's width on
/// the terminal, provided a left-aligned cell leaves no escape sequence open.
pub proof fn lemma_columns_aligned(t: TableView, i: int)
    requires
        renderable(t),
        0 <= i < t.headers.len(),
    ensures
        (t.aligns[i] matches Align::Left) ==> !esc_open_after(t.headers[i], false)
            ==> visible_cols(padded(t.headers[i], col_width(t, i), t.aligns[i])) == col_width(t, i),
        forall|k: int|
            #![trigger t.rows[k]]
            0 <= k < t.rows.len() && i < t.rows[k].len()
                && ((t.aligns[i] matches Align::Left) ==> !esc_open_after(t.rows[k][i], false))
                ==> visible_cols(padded(t.rows[k][i], col_width(t, i), t.aligns[i])) == col_width(t, i),
{
    lemma_col_width_bounds(t, i, t.rows.len() as int);
    lemma_strip_idempotent(t.headers[i]);
    if (t.aligns[i] matches Align::Left) ==> !esc_open_after(t.headers[i], false) {
        lemma_padded_cols(t.headers[i], col_width(t, i), t.aligns[i]);
    }
    assert forall|k: int|
        #![trigger t.rows[k]]
        0 <= k < t.rows.len() && i < t.rows[k].len()
            && ((t.aligns[i] matches Align::Left) ==> !esc_open_after(t.rows[k][i], false))
            implies visible_cols(padded(t.rows[k][i], col_width(t, i), t.aligns[i])) == col_width(t, i) by {
        lemma_padded_cols(t.rows[k][i], col_width(t, i), t.aligns[i]);
    }
}

} // verus!
