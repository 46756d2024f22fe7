//! Character-level string helpers shared by the rest of the library.
use vstd::prelude::*;

verus! {

/// `String::push`: appends one character at the end of the string.
#[verifier::external_body]
pub(crate) fn push_char(s: &mut String, c: char)
    ensures
        final(s)@ == old(s)@.push(c),
{
    s.push(c);
}

/// The characters of `s`, in order.
pub fn chars_of(s: &str) -> (v: Vec<char>)
    ensures
        v@ == s@,
{
    let mut v: Vec<char> = Vec::new();
    for c in it: s.chars()
        invariant
            v@ == it.seq().take(it.index() as int),
            it.seq() == s@,
    {
        v.push(c);
    }
    v
}

/// Builds a `String` holding exactly the characters of `cs`.
pub fn string_from_chars(cs: &[char]) -> (s: String)
    ensures
        s@ == cs@,
{
    let mut s = String::new();
    let mut i: usize = 0;
    while i < cs.len()
        invariant
            i <= cs@.len(),
            s@ == cs@.take(i as int),
        decreases cs@.len() - i,
    {
        push_char(&mut s, cs[i]);
        assert(cs@.take(i + 1) =~= cs@.take(i as int).push(cs@[i as int]));
        i += 1;
    }
    assert(cs@.take(cs@.len() as int) =~= cs@);
    s
}

/// Appends every character of `t` to `s`.
pub fn push_str(s: &mut String, t: &str)
    ensures
        final(s)@ == old(s)@ + t@,
{
    let cs = chars_of(t);
    let mut i: usize = 0;
    while i < cs.len()
        invariant
            i <= cs@.len(),
            cs@ == t@,
            s@ == old(s)@ + cs@.take(i as int),
        decreases cs@.len() - i,
    {
        push_char(s, cs[i]);
        assert(cs@.take(i + 1) =~= cs@.take(i as int).push(cs@[i as int]));
        i += 1;
    }
    assert(cs@.take(cs@.len() as int) =~= cs@);
}

// ---------- decimal formatting ----------

/// The ASCII digit for a value below ten.
pub open spec fn digit_char(v: int) -> char {
    ((v + 48) as u32) as char
}

/// Decimal digits of a natural number, most significant first, without leading zeros.
pub open spec fn decimal(n: nat) -> Seq<char>
    decreases n,
{
    if n < 10 {
        seq![digit_char(n as int)]
    } else {
        decimal(n / 10).push(digit_char((n % 10) as int))
    }
}

/// `k` copies of the character '0' (none when `k` is not positive).
pub open spec fn zeros(k: int) -> Seq<char> {
    Seq::new(if k > 0 { k as nat } else { 0 }, |i: int| '0')
}

/// What `format!("{:0w$}", n)` gives for an integer: the sign, then zeros up to
/// a total width of `w`, then the decimal digits of `|n|`.
pub open spec fn zero_padded(n: int, w: int) -> Seq<char> {
    if n < 0 {
        seq!['-'] + zeros(w - 1 - decimal((-n) as nat).len()) + decimal((-n) as nat)
    } else {
        zeros(w - decimal(n as nat).len()) + decimal(n as nat)
    }
}

pub proof fn lemma_decimal_nonempty(n: nat)
    ensures
        decimal(n).len() >= 1,
    decreases n,
{
    if n >= 10 {
        lemma_decimal_nonempty(n / 10);
    }
}

fn digit(v: u64) -> (c: char)
    requires
        v < 10,
    ensures
        c == digit_char(v as int),
{
    if v == 0 { '0' }
    else if v == 1 { '1' }
    else if v == 2 { '2' }
    else if v == 3 { '3' }
    else if v == 4 { '4' }
    else if v == 5 { '5' }
    else if v == 6 { '6' }
    else if v == 7 { '7' }
    else if v == 8 { '8' }
    else { '9' }
}

/// Decimal digits of `n`.
pub fn decimal_chars(n: u64) -> (v: Vec<char>)
    ensures
        v@ == decimal(n as nat),
    decreases n,
{
    if n < 10 {
        let mut v: Vec<char> = Vec::new();
        v.push(digit(n));
        assert(v@ =~= decimal(n as nat));
        v
    } else {
        let mut v = decimal_chars(n / 10);
        v.push(digit(n % 10));
        v
    }
}

/// Decimal text of `n`.
pub fn decimal_string(n: u64) -> (s: String)
    ensures
        s@ == decimal(n as nat),
{
    let ds = decimal_chars(n);
    string_from_chars(ds.as_slice())
}

/// `format!("{:0width$}", n)`: decimal with sign-aware zero padding to `width` characters.
pub fn fmt_zero_padded(n: i64, width: usize) -> (s: String)
    ensures
        s@ == zero_padded(n as int, width as int),
{
    let neg = n < 0;
    let mag: u64 = if neg { (0i128 - n as i128) as u64 } else { n as u64 };
    let ds = decimal_chars(mag);
    let mut s = String::new();
    if neg {
        push_char(&mut s, '-');
    }
    let mut k: usize = 0;
    let pad: usize = if width <= ds.len() {
        0
    } else if neg {
        if width - ds.len() > 1 { width - ds.len() - 1 } else { 0 }
    } else {
        width - ds.len()
    };
    while k < pad
        invariant
            k <= pad,
            s@ == (if neg { seq!['-'] } else { Seq::empty() }) + zeros(k as int),
        decreases pad - k,
    {
        push_char(&mut s, '0');
        assert(zeros(k + 1) =~= zeros(k as int).push('0'));
        k += 1;
    }
    let mut i: usize = 0;
    let ghost prefix = s@;
    while i < ds.len()
        invariant
            i <= ds@.len(),
            s@ == prefix + ds@.take(i as int),
        decreases ds@.len() - i,
    {
        push_char(&mut s, ds[i]);
        assert(ds@.take(i + 1) =~= ds@.take(i as int).push(ds@[i as int]));
        i += 1;
    }
    assert(ds@.take(ds@.len() as int) =~= ds@);
    if neg {
        assert(zeros(pad as int) =~= zeros(width - 1 - decimal((-n) as nat).len()));
        assert(s@ =~= zero_padded(n as int, width as int));
    } else {
        assert(zeros(pad as int) =~= zeros(width - decimal(n as nat).len()));
        assert(s@ =~= zero_padded(n as int, width as int));
    }
    s
}

// ---------- whitespace and trimming ----------

/// Unicode `White_Space`, the property `char::is_whitespace` tests.
pub open spec fn is_ws(c: char) -> bool {
    let u = c as u32;
    (0x09 <= u <= 0x0D) || u == 0x20 || u == 0x85 || u == 0xA0 || u == 0x1680
        || (0x2000 <= u <= 0x200A) || u == 0x2028 || u == 0x2029 || u == 0x202F
        || u == 0x205F || u == 0x3000
}

/// Tests a character for the Unicode `White_Space` property.
pub fn is_whitespace(c: char) -> (b: bool)
    ensures
        b == is_ws(c),
{
    let u = c as u32;
    (0x09 <= u && u <= 0x0D) || u == 0x20 || u == 0x85 || u == 0xA0 || u == 0x1680
        || (0x2000 <= u && u <= 0x200A) || u == 0x2028 || u == 0x2029 || u == 0x202F
        || u == 0x205F || u == 0x3000
}

/// `s` without its leading whitespace.
pub open spec fn trim_start(s: Seq<char>) -> Seq<char>
    decreases s.len(),
{
    if s.len() > 0 && is_ws(s[0]) { trim_start(s.drop_first()) } else { s }
}

/// `s` without its trailing whitespace.
pub open spec fn trim_end(s: Seq<char>) -> Seq<char>
    decreases s.len(),
{
    if s.len() > 0 && is_ws(s.last()) { trim_end(s.drop_last()) } else { s }
}

/// `s` without leading or trailing whitespace (`str::trim`).
pub open spec fn trim(s: Seq<char>) -> Seq<char> {
    trim_end(trim_start(s))
}

proof fn lemma_trim_start_skip(s: Seq<char>, i: int)
    requires
        0 <= i <= s.len(),
        forall|j: int| 0 <= j < i ==> is_ws(#[trigger] s[j]),
    ensures
        trim_start(s) == trim_start(s.skip(i)),
    decreases i,
{
    if i > 0 {
        assert(is_ws(s[0]));
        lemma_trim_start_skip(s.drop_first(), i - 1);
        assert(s.drop_first().skip(i - 1) =~= s.skip(i));
    } else {
        assert(s.skip(0) =~= s);
    }
}

proof fn lemma_trim_end_take(s: Seq<char>, k: int)
    requires
        0 <= k <= s.len(),
        forall|j: int| k <= j < s.len() ==> is_ws(#[trigger] s[j]),
    ensures
        trim_end(s) == trim_end(s.take(k)),
    decreases s.len() - k,
{
    if k < s.len() {
        assert(is_ws(s.last()));
        lemma_trim_end_take(s.drop_last(), k);
        assert(s.drop_last().take(k) =~= s.take(k));
    } else {
        assert(s.take(k) =~= s);
    }
}

/// `cs[lo..hi]` without its leading and trailing whitespace, as a pair of bounds.
fn trim_bounds(cs: &Vec<char>) -> (r: (usize, usize))
    ensures
        r.0 <= r.1 <= cs@.len(),
        cs@.subrange(r.0 as int, r.1 as int) == trim(cs@),
{
    let mut lo: usize = 0;
    while lo < cs.len() && is_whitespace(cs[lo])
        invariant
            lo <= cs@.len(),
            forall|j: int| 0 <= j < lo ==> is_ws(#[trigger] cs@[j]),
        decreases cs@.len() - lo,
    {
        lo += 1;
    }
    proof {
        lemma_trim_start_skip(cs@, lo as int);
        assert(trim_start(cs@.skip(lo as int)) == cs@.skip(lo as int));
    }
    let mut hi: usize = cs.len();
    while hi > lo && is_whitespace(cs[hi - 1])
        invariant
            lo <= hi <= cs@.len(),
            forall|j: int| hi <= j < cs@.len() ==> is_ws(#[trigger] cs@[j]),
        decreases hi,
    {
        hi -= 1;
    }
    proof {
        let t = cs@.skip(lo as int);
        assert forall|j: int| hi - lo <= j < t.len() implies is_ws(#[trigger] t[j]) by {
            assert(t[j] == cs@[j + lo]);
        }
        lemma_trim_end_take(t, hi - lo);
        assert(t.take(hi - lo) =~= cs@.subrange(lo as int, hi as int));
        let u = cs@.subrange(lo as int, hi as int);
        if u.len() > 0 {
            assert(u.last() == cs@[hi - 1]);
        }
    }
    (lo, hi)
}

/// `str::trim`: `s` without leading and trailing whitespace.
pub fn trim_str(s: &str) -> (t: String)
    ensures
        t@ == trim(s@),
{
    let cs = chars_of(s);
    let (lo, hi) = trim_bounds(&cs);
    string_from_chars(slice_of(&cs, lo, hi).as_slice())
}

proof fn lemma_trim_start_head(s: Seq<char>)
    ensures
        trim_start(s).len() <= s.len(),
        trim_start(s).len() > 0 ==> !is_ws(trim_start(s)[0]),
    decreases s.len(),
{
    if s.len() > 0 && is_ws(s[0]) {
        lemma_trim_start_head(s.drop_first());
    }
}

proof fn lemma_trim_end_prefix(s: Seq<char>)
    ensures
        trim_end(s).len() <= s.len(),
        trim_end(s) == s.take(trim_end(s).len() as int),
        trim_end(s).len() > 0 ==> !is_ws(trim_end(s).last()),
    decreases s.len(),
{
    if s.len() > 0 && is_ws(s.last()) {
        let d = s.drop_last();
        lemma_trim_end_prefix(d);
        assert(d.take(trim_end(d).len() as int) =~= s.take(trim_end(d).len() as int));
    } else {
        assert(s.take(s.len() as int) =~= s);
    }
}

/// Trimming twice is trimming once: a trimmed string has nothing left to trim.
pub proof fn lemma_trim_idempotent(s: Seq<char>)
    ensures
        trim(trim(s)) == trim(s),
{
    let t = trim_start(s);
    let u = trim_end(t);
    lemma_trim_start_head(s);
    lemma_trim_end_prefix(t);
    if u.len() > 0 {
        assert(u[0] == t[0]);
    }
    assert(trim_start(u) == u);
    assert(trim_end(u) == u);
}

/// `str::trim_end`: `s` without trailing whitespace.
pub fn trim_end_str(s: &str) -> (t: String)
    ensures
        t@ == trim_end(s@),
{
    let cs = chars_of(s);
    let mut hi: usize = cs.len();
    while hi > 0 && is_whitespace(cs[hi - 1])
        invariant
            hi <= cs@.len(),
            forall|j: int| hi <= j < cs@.len() ==> is_ws(#[trigger] cs@[j]),
        decreases hi,
    {
        hi -= 1;
    }
    proof {
        lemma_trim_end_take(cs@, hi as int);
    }
    string_from_chars(slice_of(&cs, 0, hi).as_slice())
}

/// The characters `v[lo..hi]`.
pub fn slice_of(v: &Vec<char>, lo: usize, hi: usize) -> (r: Vec<char>)
    requires
        lo <= hi <= v@.len(),
    ensures
        r@ == v@.subrange(lo as int, hi as int),
{
    let mut r: Vec<char> = Vec::new();
    let mut i: usize = lo;
    while i < hi
        invariant
            lo <= i <= hi,
            hi <= v@.len(),
            r@ == v@.subrange(lo as int, i as int),
        decreases hi - i,
    {
        r.push(v[i]);
        assert(v@.subrange(lo as int, i + 1) =~= v@.subrange(lo as int, i as int).push(v@[i as int]));
        i += 1;
    }
    r
}

// ---------- splitting and joining ----------

/// The pieces of `s` between occurrences of `sep` (`str::split` with a `char`
/// pattern): always at least one piece, empty pieces included.
pub open spec fn split_on(s: Seq<char>, sep: char) -> Seq<Seq<char>>
    decreases s.len(),
{
    if s.len() == 0 {
        seq![Seq::empty()]
    } else {
        let p = split_on(s.drop_last(), sep);
        if s.last() == sep {
            p.push(Seq::empty())
        } else {
            p.update(p.len() - 1, p.last().push(s.last()))
        }
    }
}

/// The pieces joined back with `sep` between consecutive ones.
pub open spec fn join_with(parts: Seq<Seq<char>>, sep: Seq<char>) -> Seq<char>
    decreases parts.len(),
{
    if parts.len() == 0 {
        Seq::empty()
    } else if parts.len() == 1 {
        parts[0]
    } else {
        join_with(parts.drop_last(), sep) + sep + parts.last()
    }
}

proof fn lemma_split_nonempty(s: Seq<char>, sep: char)
    ensures
        split_on(s, sep).len() >= 1,
    decreases s.len(),
{
    if s.len() > 0 {
        lemma_split_nonempty(s.drop_last(), sep);
    }
}

/// Joining the pieces of a split with the separator gives back the string,
/// and no piece holds the separator.
pub proof fn lemma_split_join(s: Seq<char>, sep: char)
    ensures
        join_with(split_on(s, sep), seq![sep]) == s,
        forall|i: int, j: int|
            0 <= i < split_on(s, sep).len() && 0 <= j < split_on(s, sep)[i].len()
                ==> split_on(s, sep)[i][j] != sep,
    decreases s.len(),
{
    if s.len() > 0 {
        let t = s.drop_last();
        lemma_split_join(t, sep);
        lemma_split_nonempty(t, sep);
        let p = split_on(t, sep);
        if s.last() == sep {
            let q = p.push(Seq::<char>::empty());
            assert(q.drop_last() =~= p);
            assert(join_with(q, seq![sep]) == join_with(p, seq![sep]) + seq![sep] + Seq::<char>::empty());
            assert(s =~= t + seq![sep] + Seq::<char>::empty());
        } else {
            let q = p.update(p.len() - 1, p.last().push(s.last()));
            if p.len() == 1 {
                assert(s =~= p[0].push(s.last()));
            } else {
                assert(q.drop_last() =~= p.drop_last());
                assert(join_with(q, seq![sep]) == join_with(p.drop_last(), seq![sep]) + seq![sep] + p.last().push(s.last()));
                assert(join_with(p, seq![sep]) == join_with(p.drop_last(), seq![sep]) + seq![sep] + p.last());
                assert(s =~= join_with(p, seq![sep]).push(s.last()));
            }
            assert forall|i: int, j: int|
                0 <= i < q.len() && 0 <= j < q[i].len() implies q[i][j] != sep by {
                if i == q.len() - 1 && j == q[i].len() - 1 {
                } else if i == q.len() - 1 {
                    assert(q[i][j] == p.last()[j]);
                }
            }
        }
    }
}

/// `s.split(sep)`: the pieces of `s` between occurrences of `sep`.
pub fn split_str(s: &str, sep: char) -> (parts: Vec<String>)
    ensures
        parts@.len() == split_on(s@, sep).len(),
        forall|i: int| 0 <= i < parts@.len() ==> #[trigger] parts@[i]@ == split_on(s@, sep)[i],
{
    let cs = chars_of(s);
    let mut parts: Vec<String> = Vec::new();
    let mut cur = String::new();
    let mut i: usize = 0;
    while i < cs.len()
        invariant
            i <= cs@.len(),
            cs@ == s@,
            parts@.len() + 1 == split_on(cs@.take(i as int), sep).len(),
            forall|k: int| 0 <= k < parts@.len() ==> #[trigger] parts@[k]@ == split_on(cs@.take(i as int), sep)[k],
            cur@ == split_on(cs@.take(i as int), sep).last(),
        decreases cs@.len() - i,
    {
        proof {
            lemma_split_nonempty(cs@.take(i as int), sep);
            assert(cs@.take(i + 1).drop_last() =~= cs@.take(i as int));
        }
        if cs[i] == sep {
            parts.push(cur);
            cur = String::new();
        } else {
            push_char(&mut cur, cs[i]);
        }
        i += 1;
    }
    parts.push(cur);
    assert(cs@.take(cs@.len() as int) =~= cs@);
    parts
}

/// The character sequences of a sequence of strings.
pub open spec fn views(v: Seq<String>) -> Seq<Seq<char>> {
    Seq::new(v.len(), |i: int| v[i]@)
}

/// Concatenates `parts` with `sep` between consecutive ones (`[String]::join`).
pub fn join_strings(parts: &Vec<String>, sep: &str) -> (s: String)
    ensures
        s@ == join_with(views(parts@), sep@),
{
    let ghost vs = views(parts@);
    let mut s = String::new();
    let mut i: usize = 0;
    while i < parts.len()
        invariant
            i <= parts@.len(),
            vs == views(parts@),
            s@ == join_with(vs.take(i as int), sep@),
        decreases parts@.len() - i,
    {
        if i > 0 {
            push_str(&mut s, sep);
        }
        push_str(&mut s, parts[i].as_str());
        proof {
            assert(vs.take(i + 1).drop_last() =~= vs.take(i as int));
            if i == 0 {
                assert(join_with(vs.take(0), sep@) =~= Seq::<char>::empty());
            }
        }
        i += 1;
    }
    assert(vs.take(parts@.len() as int) =~= vs);
    s
}

// ---------- small character classes ----------

pub open spec fn is_ascii_digit(c: char) -> bool {
    '0' <= c <= '9'
}

pub open spec fn all_ascii_digits(s: Seq<char>) -> bool {
    forall|i: int| 0 <= i < s.len() ==> is_ascii_digit(#[trigger] s[i])
}

/// Every character of `cs` is an ASCII digit.
pub fn all_digits(cs: &[char]) -> (b: bool)
    ensures
        b == all_ascii_digits(cs@),
{
    let mut i: usize = 0;
    while i < cs.len()
        invariant
            i <= cs@.len(),
            forall|j: int| 0 <= j < i ==> is_ascii_digit(#[trigger] cs@[j]),
        decreases cs@.len() - i,
    {
        if !('0' <= cs[i] && cs[i] <= '9') {
            return false;
        }
        i += 1;
    }
    true
}

/// Bytes taken by `c` in UTF-8.
pub open spec fn utf8_width(c: char) -> nat {
    let u = c as u32;
    if u < 0x80 { 1 } else if u < 0x800 { 2 } else if u < 0x10000 { 3 } else { 4 }
}

/// Bytes taken by `s` in UTF-8 (what `str::len` reports).
pub open spec fn utf8_len(s: Seq<char>) -> nat
    decreases s.len(),
{
    if s.len() == 0 { 0 } else { utf8_len(s.drop_last()) + utf8_width(s.last()) }
}

/// The UTF-8 length of `cs`, when it does not exceed `limit`; `None` once it does.
pub fn utf8_len_upto(cs: &[char], limit: usize) -> (r: Option<usize>)
    ensures
        match r {
            Some(n) => n == utf8_len(cs@) && n <= limit,
            None => utf8_len(cs@) > limit,
        },
{
    let mut n: usize = 0;
    let mut i: usize = 0;
    while i < cs.len()
        invariant
            i <= cs@.len(),
            n == utf8_len(cs@.take(i as int)),
            n <= limit,
        decreases cs@.len() - i,
    {
        let u = cs[i] as u32;
        let w: usize = if u < 0x80 { 1 } else if u < 0x800 { 2 } else if u < 0x10000 { 3 } else { 4 };
        assert(cs@.take(i + 1).drop_last() =~= cs@.take(i as int));
        if w > limit - n {
            proof { lemma_utf8_len_prefix(cs@, i + 1); }
            return None;
        }
        n = n + w;
        i += 1;
    }
    assert(cs@.take(cs@.len() as int) =~= cs@);
    Some(n)
}

proof fn lemma_utf8_len_prefix(s: Seq<char>, k: int)
    requires
        0 <= k <= s.len(),
    ensures
        utf8_len(s.take(k)) <= utf8_len(s),
    decreases s.len() - k,
{
    if k < s.len() {
        lemma_utf8_len_prefix(s.drop_last(), k);
        assert(s.drop_last().take(k) =~= s.take(k));
    } else {
        assert(s.take(k) =~= s);
    }
}

// ---------- integer parsing ----------

/// Value of a non-empty run of ASCII digits.
pub open spec fn digits_value(s: Seq<char>) -> int
    decreases s.len(),
{
    if s.len() == 0 { 0 } else { digits_value(s.drop_last()) * 10 + (s.last() as u32 - 48) }
}

/// `str::parse::<i64>`: an optional `+` or `-` sign followed by one or more
/// ASCII digits, whose value fits an `i64`.
pub open spec fn spec_parse_i64(s: Seq<char>) -> Option<int> {
    let neg = s.len() > 0 && s[0] == '-';
    let signed = s.len() > 0 && (s[0] == '-' || s[0] == '+');
    let ds = if signed { s.drop_first() } else { s };
    if ds.len() == 0 || !all_ascii_digits(ds) {
        None
    } else {
        let v = if neg { -digits_value(ds) } else { digits_value(ds) };
        if i64::MIN <= v <= i64::MAX { Some(v) } else { None }
    }
}

proof fn lemma_digits_value_mono(s: Seq<char>, k: int)
    requires
        0 <= k <= s.len(),
        all_ascii_digits(s),
    ensures
        0 <= digits_value(s.take(k)) <= digits_value(s),
    decreases s.len() - k,
{
    if k < s.len() {
        lemma_digits_value_mono(s.drop_last(), k);
        assert(s.drop_last().take(k) =~= s.take(k));
        assert(all_ascii_digits(s.drop_last())) by {
            assert forall|i: int| 0 <= i < s.drop_last().len() implies is_ascii_digit(#[trigger] s.drop_last()[i]) by {
                assert(s.drop_last()[i] == s[i]);
            }
        }
        assert(is_ascii_digit(s[s.len() - 1]));
    } else {
        assert(s.take(k) =~= s);
        lemma_digits_value_nonneg(s);
    }
}

proof fn lemma_digits_value_nonneg(s: Seq<char>)
    requires
        all_ascii_digits(s),
    ensures
        0 <= digits_value(s),
    decreases s.len(),
{
    if s.len() > 0 {
        assert(all_ascii_digits(s.drop_last())) by {
            assert forall|i: int| 0 <= i < s.drop_last().len() implies is_ascii_digit(#[trigger] s.drop_last()[i]) by {
                assert(s.drop_last()[i] == s[i]);
            }
        }
        lemma_digits_value_nonneg(s.drop_last());
        assert(is_ascii_digit(s[s.len() - 1]));
    }
}

/// `str::parse::<i64>`.
pub fn parse_i64(s: &str) -> (r: Option<i64>)
    ensures
        match r {
            Some(v) => spec_parse_i64(s@) == Some(v as int),
            None => spec_parse_i64(s@) is None,
        },
{
    let cs = chars_of(s);
    if cs.len() == 0 {
        return None;
    }
    let neg = cs[0] == '-';
    let start: usize = if cs[0] == '-' || cs[0] == '+' { 1 } else { 0 };
    if start == cs.len() {
        return None;
    }
    let ghost ds = if start == 1 { cs@.drop_first() } else { cs@ };
    assert(ds =~= cs@.skip(start as int));
    if !all_digits(slice_of(&cs, start, cs.len()).as_slice()) {
        assert(cs@.subrange(start as int, cs@.len() as int) =~= ds);
        return None;
    }
    assert(cs@.subrange(start as int, cs@.len() as int) =~= ds);
    // accumulate as a non-positive number so that i64::MIN is reachable
    let mut acc: i64 = 0;
    let mut i: usize = start;
    while i < cs.len()
        invariant
            start <= i <= cs@.len(),
            start == 0 || start == 1,
            cs@ == s@,
            cs@.len() > 0,
            (start == 1) == (cs@[0] == '-' || cs@[0] == '+'),
            ds =~= cs@.skip(start as int),
            all_ascii_digits(ds),
            acc == -digits_value(ds.take(i - start)),
            digits_value(ds.take(i - start)) <= -(i64::MIN as int),
        decreases cs@.len() - i,
    {
        proof {
            assert(ds.take(i - start + 1).drop_last() =~= ds.take(i - start));
            assert(ds[i - start] == cs@[i as int]);
            assert(is_ascii_digit(ds[i - start]));
            assert(ds.take(i - start + 1).last() == cs@[i as int]);
            lemma_digits_value_nonneg(ds.take(i - start));
        }
        let d = (cs[i] as u32 - 48) as i64;
        if (acc as i128) * 10 - (d as i128) < i64::MIN as i128 {
            // the magnitude exceeds what any i64 holds
            proof {
                let k = i - start;
                assert(digits_value(ds.take(k + 1)) == digits_value(ds.take(k)) * 10 + d);
                assert(digits_value(ds.take(k + 1)) > -(i64::MIN as int));
                lemma_digits_value_mono(ds, k + 1);
                assert(digits_value(ds) > i64::MAX);
                let signed = s@.len() > 0 && (s@[0] == '-' || s@[0] == '+');
                assert(ds == (if signed { s@.drop_first() } else { s@ }));
            }
            return None;
        }
        acc = acc * 10 - d;
        i += 1;
    }
    assert(ds.take(cs@.len() - start) =~= ds);
    if neg {
        Some(acc)
    } else if acc == i64::MIN {
        None
    } else {
        Some(-acc)
    }
}

// ---------- searching ----------

/// Splitting at the first `c`: the part before it and the part after it
/// (`str::split_once` with a `char`), or `None` when `c` does not occur.
#[verifier::opaque]
pub open spec fn split_once(s: Seq<char>, c: char) -> Option<(Seq<char>, Seq<char>)> {
    if exists|k: int| 0 <= k < s.len() && #[trigger] s[k] == c {
        let k = choose|k: int| 0 <= k < s.len() && s[k] == c && forall|j: int| 0 <= j < k ==> #[trigger] s[j] != c;
        Some((s.take(k), s.skip(k + 1)))
    } else {
        None
    }
}

proof fn lemma_first_index(s: Seq<char>, c: char, i: int)
    requires
        0 <= i < s.len(),
        s[i] == c,
    ensures
        exists|k: int| 0 <= k < s.len() && s[k] == c && forall|j: int| 0 <= j < k ==> #[trigger] s[j] != c,
    decreases i,
{
    if exists|j: int| 0 <= j < i && #[trigger] s[j] == c {
        let j = choose|j: int| 0 <= j < i && #[trigger] s[j] == c;
        lemma_first_index(s, c, j);
    } else {
        assert(0 <= i < s.len() && s[i] == c && forall|j: int| 0 <= j < i ==> #[trigger] s[j] != c);
    }
}

/// Splitting at the first `c` and joining the parts back with `c` gives `s`;
/// the part before holds no `c`.
pub(crate) proof fn lemma_split_once_rejoin(s: Seq<char>, c: char)
    requires
        split_once(s, c) is Some,
    ensures
        s == (split_once(s, c)->0).0 + seq![c] + (split_once(s, c)->0).1,
        forall|j: int| 0 <= j < ((split_once(s, c)->0).0).len() ==> #[trigger] ((split_once(s, c)->0).0)[j] != c,
{
    reveal(split_once);
    let i = choose|i: int| 0 <= i < s.len() && #[trigger] s[i] == c;
    lemma_first_index(s, c, i);
    let k = choose|k: int| 0 <= k < s.len() && s[k] == c && forall|j: int| 0 <= j < k ==> #[trigger] s[j] != c;
    assert(s =~= s.take(k) + seq![c] + s.skip(k + 1));
}

/// Splitting `a`, `c`, `b` at the first `c`, when `a` holds no `c`, gives `a` and `b` back.
pub(crate) proof fn lemma_split_once_join(a: Seq<char>, c: char, b: Seq<char>)
    requires
        forall|j: int| 0 <= j < a.len() ==> #[trigger] a[j] != c,
    ensures
        split_once(a + seq![c] + b, c) == Some((a, b)),
{
    reveal(split_once);
    let s = a + seq![c] + b;
    let i = a.len() as int;
    assert(s[i] == c);
    assert(forall|j: int| 0 <= j < i ==> #[trigger] s[j] != c) by {
        assert forall|j: int| 0 <= j < i implies #[trigger] s[j] != c by {
            assert(s[j] == a[j]);
        }
    }
    let k = choose|k: int| 0 <= k < s.len() && s[k] == c && forall|j: int| 0 <= j < k ==> #[trigger] s[j] != c;
    assert(0 <= i < s.len() && s[i] == c && forall|j: int| 0 <= j < i ==> #[trigger] s[j] != c);
    if k < i {
        assert(s[k] != c);
    } else if k > i {
        assert(s[i] != c);
    }
    assert(s.take(i) =~= a);
    assert(s.skip(i + 1) =~= b);
}

/// A string without `c` does not split at `c`.
pub(crate) proof fn lemma_split_once_absent(s: Seq<char>, c: char)
    requires
        forall|j: int| 0 <= j < s.len() ==> #[trigger] s[j] != c,
    ensures
        split_once(s, c) is None,
{
    reveal(split_once);
}

/// Index of the first `c` in `cs`.
pub fn find_char(cs: &Vec<char>, c: char) -> (r: Option<usize>)
    ensures
        match r {
            Some(k) => k < cs@.len() && k < usize::MAX && cs@[k as int] == c
                && (forall|j: int| 0 <= j < k ==> #[trigger] cs@[j] != c)
                && split_once(cs@, c) == Some((cs@.take(k as int), cs@.skip(k + 1))),
            None => (forall|j: int| 0 <= j < cs@.len() ==> #[trigger] cs@[j] != c)
                && split_once(cs@, c) is None,
        },
{
    proof {
        reveal(split_once);
    }
    let mut i: usize = 0;
    let n = cs.len();
    while i < n
        invariant
            n == cs@.len(),
            i <= cs@.len(),
            forall|j: int| 0 <= j < i ==> #[trigger] cs@[j] != c,
        decreases cs@.len() - i,
    {
        if cs[i] == c {
            proof {
                reveal(split_once);
                let s = cs@;
                assert(exists|k: int| 0 <= k < s.len() && #[trigger] s[k] == c) by {
                    assert(s[i as int] == c);
                }
                let k = choose|k: int| 0 <= k < s.len() && s[k] == c && forall|j: int| 0 <= j < k ==> #[trigger] s[j] != c;
                assert(0 <= i < s.len() && s[i as int] == c && forall|j: int| 0 <= j < i ==> #[trigger] s[j] != c);
                if k < i {
                    assert(s[k] != c);
                } else if k > i {
                    assert(s[i as int] != c);
                }
            }
            return Some(i);
        }
        i += 1;
    }
    None
}

/// Index into `cs` of the character boundary `n` bytes into its UTF-8 encoding.
pub fn byte_boundary(cs: &Vec<char>, n: usize) -> (k: usize)
    requires
        has_byte_boundary(cs@, n as int),
    ensures
        k <= cs@.len(),
        utf8_len(cs@.take(k as int)) == n,
        k == byte_index(cs@, n as int),
{
    let ghost j = choose|j: int| 0 <= j <= cs@.len() && #[trigger] utf8_len(cs@.take(j)) == n;
    let mut k: usize = 0;
    let mut acc: usize = 0;
    let len = cs.len();
    assert(cs@.take(0) =~= Seq::<char>::empty());
    while acc < n
        invariant
            len == cs@.len(),
            k <= cs@.len(),
            0 <= j <= cs@.len(),
            utf8_len(cs@.take(j)) == n,
            acc == utf8_len(cs@.take(k as int)),
            acc <= n,
            acc < n ==> k < j,
        decreases n - acc,
    {
        let u = cs[k] as u32;
        let w: usize = if u < 0x80 { 1 } else if u < 0x800 { 2 } else if u < 0x10000 { 3 } else { 4 };
        proof {
            assert(cs@.take(k + 1).drop_last() =~= cs@.take(k as int));
            assert(cs@.take(j).take(k + 1) =~= cs@.take(k + 1));
            lemma_utf8_len_prefix(cs@.take(j), k + 1);
            if k + 1 < j {
                assert(cs@.take(j).take(k + 2) =~= cs@.take(k + 2));
                assert(cs@.take(k + 2).drop_last() =~= cs@.take(k + 1));
                lemma_utf8_len_prefix(cs@.take(j), k + 2);
            }
        }
        acc = acc + w;
        k = k + 1;
    }
    proof {
        lemma_byte_index(cs@, n as int, k as int);
    }
    k
}

/// Some prefix of `s` takes exactly `n` bytes: byte offset `n` falls on a character boundary.
pub open spec fn has_byte_boundary(s: Seq<char>, n: int) -> bool {
    exists|j: int| 0 <= j <= s.len() && #[trigger] utf8_len(s.take(j)) == n
}

/// The number of characters in the prefix of `s` that takes `n` bytes.
pub open spec fn byte_index(s: Seq<char>, n: int) -> int {
    choose|j: int| 0 <= j <= s.len() && #[trigger] utf8_len(s.take(j)) == n
}

pub proof fn lemma_utf8_len_take_mono(s: Seq<char>, a: int, b: int)
    requires
        0 <= a < b <= s.len(),
    ensures
        utf8_len(s.take(a)) < utf8_len(s.take(b)),
    decreases b - a,
{
    assert(s.take(b).drop_last() =~= s.take(b - 1));
    if a < b - 1 {
        lemma_utf8_len_take_mono(s, a, b - 1);
    }
}

/// A prefix that takes `n` bytes is the one `byte_index` names.
pub proof fn lemma_byte_index(s: Seq<char>, n: int, k: int)
    requires
        0 <= k <= s.len(),
        utf8_len(s.take(k)) == n,
    ensures
        byte_index(s, n) == k,
{
    let j = byte_index(s, n);
    assert(0 <= j <= s.len() && utf8_len(s.take(j)) == n);
    if j < k {
        lemma_utf8_len_take_mono(s, j, k);
    } else if k < j {
        lemma_utf8_len_take_mono(s, k, j);
    }
}

} // verus!
