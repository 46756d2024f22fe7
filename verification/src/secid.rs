//! Security identifiers: the `market.code` secid of the quote servers, and the
//! rules that turn user input into one.
use vstd::prelude::*;
use crate::json::str_eq;
use crate::text::{
    has_byte_boundary,
    all_ascii_digits, all_digits, byte_boundary, chars_of, find_char, push_char, push_str,
    slice_of, split_once, split_on, split_str, string_from_chars, trim, trim_str, utf8_len,
};

verus! {

/// A resolved security: its secid (`market.code`), its code, and its name when known.
#[derive(Debug, Clone)]
pub struct Sec {
    pub secid: String,
    pub code: String,
    pub name: Option<String>,
}

/// Why an input names no security.
#[derive(Debug, Clone)]
pub enum SecError {
    /// The input is empty once trimmed.
    EmptyCode,
    /// The search found no security of a supported kind for this keyword.
    NotFound(String),
    /// The secid has no `.` between market and code.
    InvalidSecid,
    /// The secid is not on the Shanghai or Shenzhen/Beijing markets.
    NotAShare,
}

impl SecError {
    /// The message shown to the user.
    pub fn message(&self) -> (m: String)
        ensures
            match self {
                SecError::EmptyCode => m@ == "股票代码为空"@,
                SecError::NotFound(kw) => m@ == "未找到证券: "@ + kw@,
                SecError::InvalidSecid => m@ == "secid 非法"@,
                SecError::NotAShare => m@ == "仅支持 A 股"@,
            },
    {
        match self {
            SecError::EmptyCode => "股票代码为空".to_owned(),
            SecError::NotFound(kw) => {
                let mut m = "未找到证券: ".to_owned();
                push_str(&mut m, kw.as_str());
                m
            },
            SecError::InvalidSecid => "secid 非法".to_owned(),
            SecError::NotAShare => "仅支持 A 股".to_owned(),
        }
    }
}

/// What resolving an input without the search service gives: a security, or
/// the keyword to search for.
#[derive(Debug, Clone)]
pub enum Lookup {
    Found(Sec),
    Search(String),
}

/// `str::to_lowercase`: the Unicode lowercase mapping of a string.
pub uninterp spec fn lowercase(s: Seq<char>) -> Seq<char>;

/// `str::to_uppercase`: the Unicode uppercase mapping of a string.
pub uninterp spec fn uppercase(s: Seq<char>) -> Seq<char>;

/// Calls `str::to_lowercase`. The contract claims only that the result is the
/// lowercase mapping of the argument and of nothing else; the mapping itself
/// (Unicode's tables) is left unstated.
#[verifier::external_body]
fn to_lowercase(s: &str) -> (r: String)
    ensures
        r@ == lowercase(s@),
{
    s.to_lowercase()
}

/// Calls `str::to_uppercase`. The contract claims only that the result is the
/// uppercase mapping of the argument and of nothing else; the mapping itself
/// (Unicode's tables) is left unstated.
#[verifier::external_body]
fn to_uppercase(s: &str) -> (r: String)
    ensures
        r@ == uppercase(s@),
{
    s.to_uppercase()
}

/// `m.c`.
pub open spec fn dotted(m: Seq<char>, c: Seq<char>) -> Seq<char> {
    m + seq!['.'] + c
}

/// Market of a six-digit A-share code: Shanghai (`1`) for stocks starting
/// with 6 and funds 50/51/52/56/58; Shenzhen (`0`) for the 399 indexes,
/// stocks starting with 0 or 3 and funds 15/16/18; Beijing, also `0`, for
/// codes starting with 4, 8 or 92. Other codes have no known market.
pub open spec fn market_of(code: Seq<char>) -> Option<char> {
    let c0 = code[0];
    let c1 = code[1];
    let c2 = code[2];
    if c0 == '6' {
        Some('1')
    } else if c0 == '3' && c1 == '9' && c2 == '9' {
        Some('0')
    } else if c0 == '0' || c0 == '3' {
        Some('0')
    } else if c0 == '5' && (c1 == '1' || c1 == '6' || c1 == '8' || c1 == '0' || c1 == '2') {
        Some('1')
    } else if c0 == '1' && (c1 == '5' || c1 == '6' || c1 == '8') {
        Some('0')
    } else if c0 == '4' || c0 == '8' || (c0 == '9' && c1 == '2') {
        Some('0')
    } else {
        None
    }
}

/// `s` is already a secid: digits, a `.`, and a non-empty code.
pub open spec fn secid_form(s: Seq<char>) -> Option<(Seq<char>, Seq<char>)> {
    match split_once(s, '.') {
        Some((m, c)) => if all_ascii_digits(m) && c.len() > 0 { Some((s, c)) } else { None },
        None => None,
    }
}

/// The six-digit code after a market prefix (`sh`, `sz` or `bj`, after
/// lowercasing): the Shanghai prefix gives market `1`, the others `0`.
pub open spec fn prefixed_form(lower: Seq<char>) -> Option<(Seq<char>, Seq<char>)> {
    let rest = lower.skip(2);
    if lower.len() >= 2 && rest.len() == 6 && all_ascii_digits(rest) {
        if lower[0] == 's' && lower[1] == 'h' {
            Some((dotted(seq!['1'], rest), rest))
        } else if (lower[0] == 's' && lower[1] == 'z') || (lower[0] == 'b' && lower[1] == 'j') {
            Some((dotted(seq!['0'], rest), rest))
        } else {
            None
        }
    } else {
        None
    }
}

/// A sector code: `BK` and six bytes in all, after uppercasing; market `90`.
pub open spec fn sector_form(upper: Seq<char>) -> Option<(Seq<char>, Seq<char>)> {
    if upper.len() >= 2 && upper[0] == 'B' && upper[1] == 'K' && utf8_len(upper) == 6 {
        Some((dotted(seq!['9', '0'], upper), upper))
    } else {
        None
    }
}

/// A bare six-digit code whose market the code itself tells.
pub open spec fn plain_form(s: Seq<char>) -> Option<(Seq<char>, Seq<char>)> {
    if s.len() == 6 && all_ascii_digits(s) {
        match market_of(s) {
            Some(m) => Some((dotted(seq![m], s), s)),
            None => None,
        }
    } else {
        None
    }
}

/// The (secid, code) that the input `s` (already trimmed), whose lowercase
/// form is `lower` and uppercase form `upper`, resolves to without a search,
/// trying in turn: a secid as is, a market prefix, a sector code, a bare
/// six-digit code. `None` leaves it to the search service.
pub open spec fn resolution_with(s: Seq<char>, lower: Seq<char>, upper: Seq<char>) -> Option<(Seq<char>, Seq<char>)> {
    if secid_form(s) is Some {
        secid_form(s)
    } else if prefixed_form(lower) is Some {
        prefixed_form(lower)
    } else if sector_form(upper) is Some {
        sector_form(upper)
    } else {
        plain_form(s)
    }
}

/// What the trimmed input `s` resolves to without a search.
pub open spec fn local_resolution(s: Seq<char>) -> Option<(Seq<char>, Seq<char>)> {
    resolution_with(s, lowercase(s), uppercase(s))
}

fn guess_market(code: &Vec<char>) -> (m: Option<&'static str>)
    requires
        code@.len() == 6,
        all_ascii_digits(code@),
    ensures
        match market_of(code@) {
            Some(c) => m is Some && m->0@ == seq![c],
            None => m is None,
        },
{
    proof {
        reveal_strlit("1");
        reveal_strlit("0");
    }
    let c0 = code[0];
    let c1 = code[1];
    let c2 = code[2];
    if c0 == '6' {
        Some("1")
    } else if c0 == '3' && c1 == '9' && c2 == '9' {
        Some("0")
    } else if c0 == '0' || c0 == '3' {
        Some("0")
    } else if c0 == '5' && (c1 == '1' || c1 == '6' || c1 == '8' || c1 == '0' || c1 == '2') {
        Some("1")
    } else if c0 == '1' && (c1 == '5' || c1 == '6' || c1 == '8') {
        Some("0")
    } else if c0 == '4' || c0 == '8' || (c0 == '9' && c1 == '2') {
        Some("0")
    } else {
        None
    }
}

/// `m.c` as a string.
fn dotted_string(m: &[char], c: &[char]) -> (s: String)
    ensures
        s@ == dotted(m@, c@),
{
    let mut s = string_from_chars(m);
    push_char(&mut s, '.');
    let t = string_from_chars(c);
    push_str(&mut s, t.as_str());
    s
}

fn sec_of(secid: String, code: String) -> (s: Sec)
    ensures
        s.secid == secid,
        s.code == code,
        s.name is None,
{
    Sec { secid, code, name: None }
}

/// Resolves user input to a security where the input itself says which one:
/// a secid (`0.300339`), a market prefix (`sh600000`, `sz000001`,
/// `bj830799`), a sector code (`BK1031`), or a six-digit code whose market
/// the code tells. Other non-empty input is the keyword to search for.
pub fn resolve_local(input: &str) -> (r: Result<Lookup, SecError>)
    ensures
        match r {
            Err(e) => trim(input@).len() == 0 && e is EmptyCode,
            Ok(Lookup::Found(sec)) => trim(input@).len() > 0
                && local_resolution(trim(input@)) == Some((sec.secid@, sec.code@))
                && sec.name is None,
            Ok(Lookup::Search(kw)) => trim(input@).len() > 0
                && local_resolution(trim(input@)) is None
                && kw@ == trim(input@),
        },
{
    let t = trim_str(input);
    let lower = to_lowercase(t.as_str());
    let upper = to_uppercase(t.as_str());
    resolve_forms(t, lower.as_str(), upper)
}

/// Resolves the trimmed input `t`, given its lowercase form `lower` and its
/// uppercase form `upper`: empty input is an error, input that says which
/// security it names is resolved, and other input is the keyword to search for.
pub fn resolve_forms(t: String, lower: &str, upper: String) -> (r: Result<Lookup, SecError>)
    ensures
        match r {
            Err(e) => t@.len() == 0 && e is EmptyCode,
            Ok(Lookup::Found(sec)) => t@.len() > 0
                && resolution_with(t@, lower@, upper@) == Some((sec.secid@, sec.code@))
                && sec.name is None,
            Ok(Lookup::Search(kw)) => t@.len() > 0
                && resolution_with(t@, lower@, upper@) is None
                && kw@ == t@,
        },
{
    let cs = chars_of(t.as_str());
    if cs.len() == 0 {
        return Err(SecError::EmptyCode);
    }
    // already a secid
    match find_char(&cs, '.') {
        Some(k) => {
            let m = slice_of(&cs, 0, k);
            let c = slice_of(&cs, k + 1, cs.len());
            assert(m@ =~= cs@.take(k as int));
            assert(c@ =~= cs@.skip(k + 1));
            if all_digits(m.as_slice()) && c.len() > 0 {
                let code = string_from_chars(c.as_slice());
                return Ok(Lookup::Found(sec_of(t.clone(), code)));
            }
        },
        None => {},
    }
    // market prefix
    let lc = chars_of(lower);
    if lc.len() >= 2 {
        let rest = slice_of(&lc, 2, lc.len());
        assert(rest@ =~= lc@.skip(2));
        if rest.len() == 6 && all_digits(rest.as_slice()) {
            if lc[0] == 's' && lc[1] == 'h' {
                let secid = dotted_string(&['1'], rest.as_slice());
                assert(seq!['1'] =~= ['1']@);
                let code = string_from_chars(rest.as_slice());
                return Ok(Lookup::Found(sec_of(secid, code)));
            }
            if (lc[0] == 's' && lc[1] == 'z') || (lc[0] == 'b' && lc[1] == 'j') {
                let secid = dotted_string(&['0'], rest.as_slice());
                assert(seq!['0'] =~= ['0']@);
                let code = string_from_chars(rest.as_slice());
                return Ok(Lookup::Found(sec_of(secid, code)));
            }
        }
    }
    // sector code
    let uc = chars_of(upper.as_str());
    if uc.len() >= 2 && uc[0] == 'B' && uc[1] == 'K' {
        match crate::text::utf8_len_upto(uc.as_slice(), 6) {
            Some(6) => {
                let secid = dotted_string(&['9', '0'], uc.as_slice());
                assert(seq!['9', '0'] =~= ['9', '0']@);
                return Ok(Lookup::Found(sec_of(secid, upper)));
            },
            _ => {},
        }
    }
    // bare six-digit code
    if cs.len() == 6 && all_digits(cs.as_slice()) {
        match guess_market(&cs) {
            Some(mkt) => {
                let mc = chars_of(mkt);
                let secid = dotted_string(mc.as_slice(), cs.as_slice());
                return Ok(Lookup::Found(sec_of(secid, t)));
            },
            None => {},
        }
    }
    Ok(Lookup::Search(t))
}

/// The kinds of search result that name a security this tool can quote.
pub open spec fn supported_kind(classify: Seq<char>) -> bool {
    classify == "AStock"@ || classify == "Index"@ || classify == "Fund"@ || classify == "BK"@
        || classify == "NEEQ"@ || classify == "BSE"@ || classify == "ETF"@ || classify == "LOF"@
}

fn is_supported_kind(classify: &str) -> (b: bool)
    ensures
        b == supported_kind(classify@),
{
    str_eq(classify, "AStock") || str_eq(classify, "Index") || str_eq(classify, "Fund")
        || str_eq(classify, "BK") || str_eq(classify, "NEEQ") || str_eq(classify, "BSE")
        || str_eq(classify, "ETF") || str_eq(classify, "LOF")
}

/// Picks the first search result of a supported kind. Each result is
/// `(secid, (code, name), kind)`.
pub fn suggest_from(list: Vec<(String, (String, String), String)>, kw: &str) -> (r: Result<Sec, SecError>)
    ensures
        match r {
            Ok(sec) => exists|i: int|
                0 <= i < list@.len() && supported_kind(#[trigger] list@[i].2@)
                    && (forall|j: int| 0 <= j < i ==> !supported_kind(#[trigger] list@[j].2@))
                    && sec.secid@ == list@[i].0@ && sec.code@ == list@[i].1.0@
                    && sec.name == Some(list@[i].1.1),
            Err(e) => (forall|j: int| 0 <= j < list@.len() ==> !supported_kind(#[trigger] list@[j].2@))
                && (e matches SecError::NotFound(k) && k@ == kw@),
        },
{
    let mut i: usize = 0;
    while i < list.len()
        invariant
            i <= list@.len(),
            forall|j: int| 0 <= j < i ==> !supported_kind(#[trigger] list@[j].2@),
        decreases list@.len() - i,
    {
        if is_supported_kind(list[i].2.as_str()) {
            let it = &list[i];
            return Ok(Sec { secid: it.0.clone(), code: it.1.0.clone(), name: Some(it.1.1.clone()) });
        }
        i += 1;
    }
    Err(SecError::NotFound(kw.to_owned()))
}


/// The secid of a popularity-rank code such as `SZ002185`: `SH` is market 1,
/// `SZ` and `BJ` are market 0, anything else has none.
pub open spec fn rank_sc_secid(sc: Seq<char>) -> Option<Seq<char>> {
    if sc.len() >= 2 && sc[0] == 'S' && sc[1] == 'H' {
        Some(dotted(seq!['1'], sc.skip(2)))
    } else if sc.len() >= 2 && ((sc[0] == 'S' && sc[1] == 'Z') || (sc[0] == 'B' && sc[1] == 'J')) {
        Some(dotted(seq!['0'], sc.skip(2)))
    } else {
        None
    }
}

/// `"SZ002185"` / `"SH600584"` → secid (the popularity-rank format).
pub fn from_rank_sc(sc: &str) -> (r: Option<String>)
    requires
        has_byte_boundary(sc@, 2),
    ensures
        match r {
            Some(s) => rank_sc_secid(sc@) == Some(s@),
            None => rank_sc_secid(sc@) is None,
        },
{
    let cs = chars_of(sc);
    if cs.len() < 2 {
        return None;
    }
    let rest = slice_of(&cs, 2, cs.len());
    assert(rest@ =~= cs@.skip(2));
    if cs[0] == 'S' && cs[1] == 'H' {
        assert(seq!['1'] =~= ['1']@);
        Some(dotted_string(&['1'], rest.as_slice()))
    } else if (cs[0] == 'S' && cs[1] == 'Z') || (cs[0] == 'B' && cs[1] == 'J') {
        assert(seq!['0'] =~= ['0']@);
        Some(dotted_string(&['0'], rest.as_slice()))
    } else {
        None
    }
}

/// A Shenzhen-market code that trades in Beijing: starting with 4, 8 or 92.
pub open spec fn beijing_code(code: Seq<char>) -> bool {
    code.len() >= 1 && (code[0] == '4' || code[0] == '8' || (code.len() >= 2 && code[0] == '9' && code[1] == '2'))
}

fn is_beijing_code(code: &Vec<char>) -> (b: bool)
    ensures
        b == beijing_code(code@),
{
    code.len() >= 1 && (code[0] == '4' || code[0] == '8' || (code.len() >= 2 && code[0] == '9' && code[1] == '2'))
}

/// The popularity-rank code of a secid: `SH`, `SZ` or `BJ` before the code.
pub open spec fn secid_rank_sc(secid: Seq<char>) -> Option<Seq<char>> {
    match split_once(secid, '.') {
        Some((m, code)) => if m == seq!['1'] {
            Some(seq!['S', 'H'] + code)
        } else if m == seq!['0'] {
            if beijing_code(code) { Some(seq!['B', 'J'] + code) } else { Some(seq!['S', 'Z'] + code) }
        } else {
            None
        },
        None => None,
    }
}

/// secid → popularity-rank code (`0.002497` → `SZ002497`).
pub fn to_rank_sc(secid: &str) -> (r: Option<String>)
    ensures
        match r {
            Some(s) => secid_rank_sc(secid@) == Some(s@),
            None => secid_rank_sc(secid@) is None,
        },
{
    let cs = chars_of(secid);
    match find_char(&cs, '.') {
        Some(k) => {
            let m = slice_of(&cs, 0, k);
            let code = slice_of(&cs, k + 1, cs.len());
            assert(m@ =~= cs@.take(k as int));
            assert(code@ =~= cs@.skip(k + 1));
            let head: [char; 2] = if m.len() == 1 && m[0] == '1' {
                ['S', 'H']
            } else if m.len() == 1 && m[0] == '0' {
                if is_beijing_code(&code) { ['B', 'J'] } else { ['S', 'Z'] }
            } else {
                assert(m@ != seq!['1'] && m@ != seq!['0']) by {
                    if m@.len() == 1 {
                        assert(m@[0] != '1' && m@[0] != '0');
                    }
                };
                return None;
            };
            proof {
                if m@.len() == 1 && m@[0] == '1' {
                    assert(m@ =~= seq!['1']);
                } else {
                    assert(m@ =~= seq!['0']);
                    assert(m@ != seq!['1']);
                }
            }
            let mut s = string_from_chars(&head);
            let rest = string_from_chars(code.as_slice());
            push_str(&mut s, rest.as_str());
            Some(s)
        },
        None => None,
    }
}

/// The F10 security code of a secid: `code.SH` on market 1, `code.BJ` or
/// `code.SZ` on market 0.
pub open spec fn secucode_of(secid: Seq<char>) -> Result<Seq<char>, SecError> {
    match split_once(secid, '.') {
        Some((m, code)) => if m == seq!['1'] {
            Ok(code + seq!['.', 'S', 'H'])
        } else if m == seq!['0'] {
            if beijing_code(code) { Ok(code + seq!['.', 'B', 'J']) } else { Ok(code + seq!['.', 'S', 'Z']) }
        } else {
            Err(SecError::NotAShare)
        },
        None => Err(SecError::InvalidSecid),
    }
}

/// The F10 security code (`300339.SZ`) of an A-share security.
pub fn secucode(sec: &Sec) -> (r: Result<String, SecError>)
    ensures
        match r {
            Ok(s) => secucode_of(sec.secid@) == Ok::<Seq<char>, SecError>(s@),
            Err(e) => secucode_of(sec.secid@) == Err::<Seq<char>, SecError>(e),
        },
{
    let cs = chars_of(sec.secid.as_str());
    match find_char(&cs, '.') {
        Some(k) => {
            let m = slice_of(&cs, 0, k);
            let code = slice_of(&cs, k + 1, cs.len());
            assert(m@ =~= cs@.take(k as int));
            assert(code@ =~= cs@.skip(k + 1));
            let tail: [char; 3] = if m.len() == 1 && m[0] == '1' {
                ['.', 'S', 'H']
            } else if m.len() == 1 && m[0] == '0' {
                if is_beijing_code(&code) { ['.', 'B', 'J'] } else { ['.', 'S', 'Z'] }
            } else {
                assert(m@ != seq!['1'] && m@ != seq!['0']) by {
                    if m@.len() == 1 {
                        assert(m@[0] != '1' && m@[0] != '0');
                    }
                };
                return Err(SecError::NotAShare);
            };
            proof {
                if m@.len() == 1 && m@[0] == '1' {
                    assert(m@ =~= seq!['1']);
                } else {
                    assert(m@ =~= seq!['0']);
                    assert(m@ != seq!['1']);
                }
            }
            let mut s = string_from_chars(code.as_slice());
            let t = string_from_chars(&tail);
            push_str(&mut s, t.as_str());
            Ok(s)
        },
        None => Err(SecError::InvalidSecid),
    }
}

/// The secid of a watch-list entry `market$code$id`: when the market is all
/// digits and the code is not empty.
pub open spec fn watch_entry_secid(security: Seq<char>) -> Option<Seq<char>> {
    let parts = split_on(security, '$');
    if parts.len() >= 2 && all_ascii_digits(parts[0]) && parts[1].len() > 0 {
        Some(dotted(parts[0], parts[1]))
    } else {
        None
    }
}

/// secid of a watch-list entry (`0$300339$123` → `0.300339`).
pub fn watch_entry_to_secid(security: &str) -> (r: Option<String>)
    ensures
        match r {
            Some(s) => watch_entry_secid(security@) == Some(s@),
            None => watch_entry_secid(security@) is None,
        },
{
    let parts = split_str(security, '$');
    if parts.len() < 2 {
        return None;
    }
    let m = chars_of(parts[0].as_str());
    let code = chars_of(parts[1].as_str());
    if all_digits(m.as_slice()) && code.len() > 0 {
        Some(dotted_string(m.as_slice(), code.as_slice()))
    } else {
        None
    }
}

/// The code part of a popularity-rank code: what follows its first two bytes
/// when it is longer than that, the whole of it otherwise.
pub open spec fn rank_sc_code(sc: Seq<char>) -> Seq<char> {
    if utf8_len(sc) > 2 {
        sc.skip(crate::text::byte_index(sc, 2))
    } else {
        sc
    }
}

/// The code in a popularity-rank code (`SZ002185` → `002185`).
pub fn sc_code(sc: &str) -> (r: String)
    requires
        crate::text::utf8_len(sc@) > 2 ==> has_byte_boundary(sc@, 2),
    ensures
        r@ == rank_sc_code(sc@),
{
    let cs = chars_of(sc);
    match crate::text::utf8_len_upto(cs.as_slice(), 2) {
        Some(_) => string_from_chars(cs.as_slice()),
        None => {
            let k = byte_boundary(&cs, 2);
            proof {
                crate::text::lemma_byte_index(sc@, 2, k as int);
            }
            let rest = slice_of(&cs, k, cs.len());
            assert(rest@ =~= sc@.skip(k as int));
            string_from_chars(rest.as_slice())
        },
    }
}

/// A sector code given to `board-stocks`: the input uppercased, when it starts with `BK`.
pub open spec fn sector_code_of(code: Seq<char>) -> Option<Seq<char>> {
    bk_code(uppercase(code))
}

/// An uppercased code that names a sector: one that starts with `BK`.
pub open spec fn bk_code(upper: Seq<char>) -> Option<Seq<char>> {
    if upper.len() >= 2 && upper[0] == 'B' && upper[1] == 'K' { Some(upper) } else { None }
}

/// The sector code that the input names directly, if any.
pub fn sector_code(code: &str) -> (r: Option<String>)
    ensures
        match r {
            Some(s) => sector_code_of(code@) == Some(s@),
            None => sector_code_of(code@) is None,
        },
{
    sector_code_upper(to_uppercase(code))
}

/// The uppercased input `upper` as a sector code, when it starts with `BK`.
pub fn sector_code_upper(upper: String) -> (r: Option<String>)
    ensures
        match r {
            Some(s) => bk_code(upper@) == Some(s@),
            None => bk_code(upper@) is None,
        },
{
    let cs = chars_of(upper.as_str());
    if cs.len() >= 2 && cs[0] == 'B' && cs[1] == 'K' {
        Some(upper)
    } else {
        None
    }
}

// ---------- laws ----------

proof fn lemma_rank_sc_back(m: Seq<char>, code: Seq<char>, sc: Seq<char>)
    requires
        sc.len() >= 2,
        sc.skip(2) == code,
        (m == seq!['1'] && sc[0] == 'S' && sc[1] == 'H')
            || (m == seq!['0'] && ((sc[0] == 'S' && sc[1] == 'Z') || (sc[0] == 'B' && sc[1] == 'J'))),
    ensures
        rank_sc_secid(sc) == Some(dotted(m, code)),
{
}

/// The popularity-rank code of a secid leads back to that secid: its
/// exchange letters give the market, and the code follows them unchanged.
#[verifier::spinoff_prover]
pub proof fn lemma_rank_code_round_trip(secid: Seq<char>)
    requires
        secid_rank_sc(secid) is Some,
    ensures
        rank_sc_secid(secid_rank_sc(secid)->0) == Some(secid),
{
    crate::text::lemma_split_once_rejoin(secid, '.');
    let (m, code) = split_once(secid, '.')->0;
    let sc = secid_rank_sc(secid)->0;
    let letters = if m == seq!['1'] {
        seq!['S', 'H']
    } else if beijing_code(code) {
        seq!['B', 'J']
    } else {
        seq!['S', 'Z']
    };
    assert(sc == letters + code);
    assert(sc.skip(2) =~= code);
    lemma_rank_sc_back(m, code, sc);
    assert(secid =~= dotted(m, code));
}

/// The popularity-rank code and the F10 code of a secid name the same
/// exchange: a secid has one exactly when it has the other, and the F10 code
/// is the code, a `.`, and the rank code's two exchange letters.
#[verifier::spinoff_prover]
pub proof fn lemma_exchange_codes_agree(secid: Seq<char>)
    ensures
        (secid_rank_sc(secid) is Some) == (secucode_of(secid) is Ok),
        secid_rank_sc(secid) is Some ==> secucode_of(secid) == Ok::<Seq<char>, SecError>(
            (secid_rank_sc(secid)->0).skip(2) + seq!['.'] + (secid_rank_sc(secid)->0).take(2),
        ),
{
    if secid_rank_sc(secid) is Some {
        let code = (split_once(secid, '.')->0).1;
        let sc = secid_rank_sc(secid)->0;
        assert(sc.skip(2) =~= code);
        assert(sc.take(2) =~= seq![sc[0], sc[1]]);
        assert(sc.skip(2) + seq!['.'] + sc.take(2) =~= code + seq!['.', sc[0], sc[1]]);
    }
}

/// A secid written as digits, `.`, and a non-empty code is resolved as is.
#[verifier::spinoff_prover]
proof fn lemma_dotted_resolves(m: Seq<char>, c: Seq<char>)
    requires
        all_ascii_digits(m),
        c.len() > 0,
    ensures
        local_resolution(dotted(m, c)) == Some((dotted(m, c), c)),
{
    assert forall|j: int| 0 <= j < m.len() implies #[trigger] m[j] != '.' by {
        assert(crate::text::is_ascii_digit(m[j]));
    }
    crate::text::lemma_split_once_join(m, '.', c);
    assert(secid_form(dotted(m, c)) == Some((dotted(m, c), c)));
}

/// A resolved secid resolves to itself: whatever form the input took, the
/// secid it resolves to is taken as is, with the same code.
#[verifier::spinoff_prover]
pub proof fn lemma_resolution_stable(s: Seq<char>)
    requires
        local_resolution(s) is Some,
    ensures
        local_resolution((local_resolution(s)->0).0) == local_resolution(s),
{
    if secid_form(s) is Some {
    } else if prefixed_form(lowercase(s)) is Some {
        let lower = lowercase(s);
        let rest = lower.skip(2);
        if lower[0] == 's' && lower[1] == 'h' {
            assert(all_ascii_digits(seq!['1']));
            lemma_dotted_resolves(seq!['1'], rest);
        } else {
            assert(all_ascii_digits(seq!['0']));
            lemma_dotted_resolves(seq!['0'], rest);
        }
    } else if sector_form(uppercase(s)) is Some {
        assert(all_ascii_digits(seq!['9', '0']));
        lemma_dotted_resolves(seq!['9', '0'], uppercase(s));
    } else {
        let mk = market_of(s)->0;
        assert(all_ascii_digits(seq![mk]));
        lemma_dotted_resolves(seq![mk], s);
    }
}

/// The market of a bare six-digit code, by its leading digits: Shanghai
/// (`1.`) for 6 and for the funds 50, 51, 52, 56 and 58; Shenzhen (`0.`) for 0
/// and 3 (the 399 indexes among them) and for the funds 15, 16 and 18;
/// Beijing, written `0.`, for 4, 8 and 92. Any other code is left to the
/// search. A string of digits is its own lowercase and uppercase form.
pub proof fn lemma_bare_code_markets(s: Seq<char>)
    requires
        s.len() == 6,
        all_ascii_digits(s),
    ensures
        s[0] == '6' ==> resolution_with(s, s, s) == Some((seq!['1', '.'] + s, s)),
        s[0] == '0' || s[0] == '3' ==> resolution_with(s, s, s) == Some((seq!['0', '.'] + s, s)),
        s[0] == '5' && (s[1] == '0' || s[1] == '1' || s[1] == '2' || s[1] == '6' || s[1] == '8')
            ==> resolution_with(s, s, s) == Some((seq!['1', '.'] + s, s)),
        s[0] == '1' && (s[1] == '5' || s[1] == '6' || s[1] == '8')
            ==> resolution_with(s, s, s) == Some((seq!['0', '.'] + s, s)),
        s[0] == '4' || s[0] == '8' || (s[0] == '9' && s[1] == '2')
            ==> resolution_with(s, s, s) == Some((seq!['0', '.'] + s, s)),
        s[0] == '7' || s[0] == '2' || (s[0] == '9' && s[1] != '2')
            || (s[0] == '5' && (s[1] == '3' || s[1] == '4' || s[1] == '5' || s[1] == '7' || s[1] == '9'))
            || (s[0] == '1' && !(s[1] == '5' || s[1] == '6' || s[1] == '8'))
            ==> resolution_with(s, s, s) is None,
{
    assert forall|j: int| 0 <= j < s.len() implies #[trigger] s[j] != '.' by {
        assert(crate::text::is_ascii_digit(s[j]));
    }
    crate::text::lemma_split_once_absent(s, '.');
    assert(crate::text::is_ascii_digit(s[0]));
    assert(crate::text::is_ascii_digit(s[1]));
    assert(seq!['1', '.'] + s =~= dotted(seq!['1'], s));
    assert(seq!['0', '.'] + s =~= dotted(seq!['0'], s));
}

/// The search results a security is taken from are exactly those of the
/// kinds `AStock`, `Index`, `Fund`, `BK`, `NEEQ`, `BSE`, `ETF` and `LOF`; so
/// when the first result is of one of these kinds, it is the one taken.
pub proof fn lemma_supported_kinds(list: Seq<(String, (String, String), String)>, i: int)
    ensures
        list.len() > 0 ==> (supported_kind(list[0].2@) <==> (list[0].2@ == "AStock"@ || list[0].2@ == "Index"@
            || list[0].2@ == "Fund"@ || list[0].2@ == "BK"@ || list[0].2@ == "NEEQ"@ || list[0].2@ == "BSE"@
            || list[0].2@ == "ETF"@ || list[0].2@ == "LOF"@)),
        supported_kind("AStock"@) && supported_kind("Index"@) && supported_kind("Fund"@) && supported_kind("BK"@)
            && supported_kind("NEEQ"@) && supported_kind("BSE"@) && supported_kind("ETF"@) && supported_kind("LOF"@),
        list.len() > 0 && supported_kind(list[0].2@) && 0 <= i < list.len()
            && supported_kind(list[i].2@) && (forall|j: int| 0 <= j < i ==> !supported_kind(#[trigger] list[j].2@))
            ==> i == 0,
{
}

/// The exchange letters of a secid: market 1 is Shanghai (`SH`, F10 `.SH`);
/// on market 0 the codes starting with 4, 8 or 92 trade in Beijing (`BJ`,
/// `.BJ`) and the others in Shenzhen (`SZ`, `.SZ`); other markets have no
/// exchange letters.
pub proof fn lemma_exchange_of_secid(m: Seq<char>, code: Seq<char>)
    requires
        forall|j: int| 0 <= j < m.len() ==> #[trigger] m[j] != '.',
    ensures
        m == seq!['1'] ==> secid_rank_sc(dotted(m, code)) == Some(seq!['S', 'H'] + code)
            && secucode_of(dotted(m, code)) == Ok::<Seq<char>, SecError>(code + seq!['.', 'S', 'H']),
        m == seq!['0'] && code.len() > 0 && (code[0] == '4' || code[0] == '8' || (code.len() > 1 && code[0] == '9' && code[1] == '2'))
            ==> secid_rank_sc(dotted(m, code)) == Some(seq!['B', 'J'] + code)
            && secucode_of(dotted(m, code)) == Ok::<Seq<char>, SecError>(code + seq!['.', 'B', 'J']),
        m == seq!['0'] && !(code.len() > 0 && (code[0] == '4' || code[0] == '8' || (code.len() > 1 && code[0] == '9' && code[1] == '2')))
            ==> secid_rank_sc(dotted(m, code)) == Some(seq!['S', 'Z'] + code)
            && secucode_of(dotted(m, code)) == Ok::<Seq<char>, SecError>(code + seq!['.', 'S', 'Z']),
        m != seq!['1'] && m != seq!['0'] ==> secid_rank_sc(dotted(m, code)) is None
            && secucode_of(dotted(m, code)) == Err::<Seq<char>, SecError>(SecError::NotAShare),
{
    crate::text::lemma_split_once_join(m, '.', code);
    if m == seq!['0'] {
        assert(m[0] == '0' && seq!['1'][0] == '1');
        assert(m != seq!['1']);
    }
}

} // verus!
