//! Readers for the responses of the quote, ranking, forum, announcement,
//! watch-list and data-center services, and the request parameters that
//! depend on the caller's choices.
use vstd::prelude::*;
use crate::json::{
    json_array, json_get, json_i64, json_path, json_str, key_views, present, str_items,
    string_items, Json,
};
use crate::secid::{watch_entry_secid, watch_entry_to_secid};
use crate::text::{chars_of, parse_i64, push_char, push_str, spec_parse_i64, views};

verus! {

broadcast use vstd::seq_lib::group_to_multiset_ensures;

/// A response that does not hold what was asked for.
#[derive(Debug, Clone)]
pub enum ApiError {
    /// 行情返回为空
    QuotesEmpty,
    /// 未找到行情数据: {secid}
    QuoteMissing(String),
    /// 列表返回为空
    ListEmpty,
    /// K线为空（push2his 集群可能被限流，请稍后重试）
    KlineEmpty,
    /// 分时为空
    TrendsEmpty,
    /// 资金流为空
    FlowEmpty,
    /// 涨跌分布为空
    FenbuEmpty,
    /// 热榜为空
    HotRankEmpty,
    /// 无排名数据
    RankMissing,
    /// 无历史排名
    RankHistoryMissing,
    /// 帖子列表为空
    PostsEmpty,
    /// 公告为空
    AnnouncementsEmpty,
    /// 资讯为空
    NewsEmpty,
    /// The watch-list service answered with a non-zero state and this message.
    WatchList(i64, String),
    /// 分组列表为空
    GroupsEmpty,
    /// {report} 无数据
    ReportEmpty(String),
    /// 数据中心无结果: {message}
    DataCenter(String),
}

impl ApiError {
    /// The message shown to the user.
    pub fn message(&self) -> (m: String)
        ensures
            match self {
                ApiError::QuotesEmpty => m@ == "行情返回为空"@,
                ApiError::QuoteMissing(s) => m@ == "未找到行情数据: "@ + s@,
                ApiError::ListEmpty => m@ == "列表返回为空"@,
                ApiError::KlineEmpty => m@ == "K线为空（push2his 集群可能被限流，请稍后重试）"@,
                ApiError::TrendsEmpty => m@ == "分时为空"@,
                ApiError::FlowEmpty => m@ == "资金流为空"@,
                ApiError::FenbuEmpty => m@ == "涨跌分布为空"@,
                ApiError::HotRankEmpty => m@ == "热榜为空"@,
                ApiError::RankMissing => m@ == "无排名数据"@,
                ApiError::RankHistoryMissing => m@ == "无历史排名"@,
                ApiError::PostsEmpty => m@ == "帖子列表为空"@,
                ApiError::AnnouncementsEmpty => m@ == "公告为空"@,
                ApiError::NewsEmpty => m@ == "资讯为空"@,
                ApiError::WatchList(state, msg) => m@ == "自选股接口异常 (state="@
                    + crate::text::zero_padded(*state as int, 0) + "): "@ + msg@
                    + "。Cookie 可能已过期，请重新 em config set-cookie"@,
                ApiError::GroupsEmpty => m@ == "分组列表为空"@,
                ApiError::ReportEmpty(r) => m@ == r@ + " 无数据"@,
                ApiError::DataCenter(msg) => m@ == "数据中心无结果: "@ + msg@,
            },
    {
        match self {
            ApiError::QuotesEmpty => "行情返回为空".to_owned(),
            ApiError::QuoteMissing(s) => {
                let mut m = "未找到行情数据: ".to_owned();
                push_str(&mut m, s.as_str());
                m
            },
            ApiError::ListEmpty => "列表返回为空".to_owned(),
            ApiError::KlineEmpty => "K线为空（push2his 集群可能被限流，请稍后重试）".to_owned(),
            ApiError::TrendsEmpty => "分时为空".to_owned(),
            ApiError::FlowEmpty => "资金流为空".to_owned(),
            ApiError::FenbuEmpty => "涨跌分布为空".to_owned(),
            ApiError::HotRankEmpty => "热榜为空".to_owned(),
            ApiError::RankMissing => "无排名数据".to_owned(),
            ApiError::RankHistoryMissing => "无历史排名".to_owned(),
            ApiError::PostsEmpty => "帖子列表为空".to_owned(),
            ApiError::AnnouncementsEmpty => "公告为空".to_owned(),
            ApiError::NewsEmpty => "资讯为空".to_owned(),
            ApiError::WatchList(state, msg) => {
                let mut m = "自选股接口异常 (state=".to_owned();
                let n = crate::text::fmt_zero_padded(*state, 0);
                push_str(&mut m, n.as_str());
                push_str(&mut m, "): ");
                push_str(&mut m, msg.as_str());
                push_str(&mut m, "。Cookie 可能已过期，请重新 em config set-cookie");
                m
            },
            ApiError::GroupsEmpty => "分组列表为空".to_owned(),
            ApiError::ReportEmpty(r) => {
                let mut m = r.clone();
                push_str(&mut m, " 无数据");
                m
            },
            ApiError::DataCenter(msg) => {
                let mut m = "数据中心无结果: ".to_owned();
                push_str(&mut m, msg.as_str());
                m
            },
        }
    }
}

/// The elements of the array at `keys`, moved out of `v`.
fn array_at(v: Json, keys: &[&str]) -> (r: Option<Vec<Json>>)
    ensures
        match r {
            Some(a) => json_array(json_path(v, key_views(keys@))) == Some(a@),
            None => json_array(json_path(v, key_views(keys@))) is None,
        },
{
    match v.take_path(keys) {
        Some(Json::Array(a)) => Some(a),
        _ => None,
    }
}

/// The member values of an object, in order.
pub open spec fn member_values(es: Seq<(String, Json)>) -> Seq<Json> {
    Seq::new(es.len(), |i: int| es[i].1)
}

/// What the batch-quote service's `data.diff` holds: an array as is, an
/// object's member values in order, and nothing otherwise.
pub open spec fn quote_items(v: Json) -> Option<Seq<Json>> {
    match json_path(v, seq!["data"@, "diff"@]) {
        Some(Json::Array(a)) => Some(a@),
        Some(Json::Object(es)) => Some(member_values(es@)),
        _ => None,
    }
}

/// The quotes in a batch-quote response.
pub fn quotes_from(v: Json) -> (r: Result<Vec<Json>, ApiError>)
    ensures
        match r {
            Ok(items) => quote_items(v) == Some(items@),
            Err(e) => quote_items(v) is None && e is QuotesEmpty,
        },
{
    let keys = ["data", "diff"];
    assert(key_views(keys@) =~= seq!["data"@, "diff"@]);
    match v.take_path(&keys) {
        Some(Json::Array(a)) => Ok(a),
        Some(Json::Object(es)) => {
            let ghost es0 = es@;
            let mut out: Vec<Json> = Vec::new();
            let mut es = es;
            // move the values out in order
            let mut rev: Vec<Json> = Vec::new();
            while es.len() > 0
                invariant
                    es@ == es0.take(es@.len() as int),
                    rev@.len() + es@.len() == es0.len(),
                    forall|i: int| 0 <= i < rev@.len() ==> #[trigger] rev@[i] == es0[es0.len() - 1 - i].1,
                decreases es@.len(),
            {
                let ghost before = es@;
                let e = es.pop().unwrap();
                assert(e == es0[es0.len() - 1 - rev@.len()]);
                rev.push(e.1);
                assert(es@ =~= es0.take(es@.len() as int));
            }
            while rev.len() > 0
                invariant
                    out@.len() + rev@.len() == es0.len(),
                    forall|i: int| 0 <= i < rev@.len() ==> #[trigger] rev@[i] == es0[es0.len() - 1 - i].1,
                    forall|i: int| 0 <= i < out@.len() ==> #[trigger] out@[i] == es0[i].1,
                decreases rev@.len(),
            {
                let x = rev.pop().unwrap();
                out.push(x);
            }
            assert(out@ =~= member_values(es0));
            Ok(out)
        },
        _ => Err(ApiError::QuotesEmpty),
    }
}

/// The array at `keys`, or the given error.
fn array_or(v: Json, keys: &[&str], e: ApiError) -> (r: Result<Vec<Json>, ApiError>)
    ensures
        match r {
            Ok(a) => json_array(json_path(v, key_views(keys@))) == Some(a@),
            Err(e2) => json_array(json_path(v, key_views(keys@))) is None && e2 == e,
        },
{
    match array_at(v, keys) {
        Some(a) => Ok(a),
        None => Err(e),
    }
}

/// The `data` member when present and not null, or the given error.
fn data_or(v: Json, e: ApiError) -> (r: Result<Json, ApiError>)
    ensures
        match r {
            Ok(d) => present(json_get(v, "data"@)) && json_get(v, "data"@) == Some(d),
            Err(e2) => !present(json_get(v, "data"@)) && e2 == e,
        },
{
    match v.take_member("data") {
        Some(d) => {
            if d.is_null() {
                Err(e)
            } else {
                Ok(d)
            }
        },
        None => Err(e),
    }
}

/// The snapshot in a single-stock quote response.
pub fn stock_from(v: Json, secid: &str) -> (r: Result<Json, ApiError>)
    ensures
        match r {
            Ok(d) => present(json_get(v, "data"@)) && json_get(v, "data"@) == Some(d),
            Err(e) => !present(json_get(v, "data"@)) && (e matches ApiError::QuoteMissing(s) && s@ == secid@),
        },
{
    data_or(v, ApiError::QuoteMissing(secid.to_owned()))
}

/// The rows of a ranking or sector list response (`data.diff`).
pub fn list_from(v: Json) -> (r: Result<Vec<Json>, ApiError>)
    ensures
        match r {
            Ok(a) => json_array(json_path(v, seq!["data"@, "diff"@])) == Some(a@),
            Err(e) => json_array(json_path(v, seq!["data"@, "diff"@])) is None && e is ListEmpty,
        },
{
    let keys = ["data", "diff"];
    assert(key_views(keys@) =~= seq!["data"@, "diff"@]);
    array_or(v, &keys, ApiError::ListEmpty)
}

/// The strings of the array at `keys`; an absent array counts as empty.
pub open spec fn strings_at(v: Json, keys: Seq<Seq<char>>) -> Seq<Seq<char>> {
    match json_array(json_path(v, keys)) {
        Some(a) => str_items(a),
        None => Seq::empty(),
    }
}

/// The name and the K-line rows (`date,open,close,high,low,volume,amount,
/// amplitude,change%,change,turnover`) of a K-line response; an error when
/// there is no row.
pub fn kline_from(v: Json) -> (r: Result<(String, Vec<String>), ApiError>)
    ensures
        match r {
            Ok((name, rows)) => name@ == (match json_str(json_path(v, seq!["data"@, "name"@])) {
                    Some(n) => n,
                    None => Seq::empty(),
                })
                && views(rows@) == strings_at(v, seq!["data"@, "klines"@]) && rows@.len() > 0,
            Err(e) => strings_at(v, seq!["data"@, "klines"@]).len() == 0 && e is KlineEmpty,
        },
{
    let name_keys = ["data", "name"];
    let row_keys = ["data", "klines"];
    assert(key_views(name_keys@) =~= seq!["data"@, "name"@]);
    assert(key_views(row_keys@) =~= seq!["data"@, "klines"@]);
    let name = match v.path(&name_keys) {
        Some(Json::Str(n)) => n.clone(),
        _ => String::new(),
    };
    let rows = match v.path(&row_keys) {
        Some(Json::Array(a)) => string_items(a),
        _ => Vec::new(),
    };
    if rows.len() == 0 {
        return Err(ApiError::KlineEmpty);
    }
    Ok((name, rows))
}

/// The data object and the intraday rows (`time,price,volume,average`) of an
/// intraday response; the rows are empty when absent.
pub fn trends_from(v: Json) -> (r: Result<(Json, Vec<String>), ApiError>)
    ensures
        match r {
            Ok((d, rows)) => present(json_get(v, "data"@)) && json_get(v, "data"@) == Some(d)
                && views(rows@) == strings_at(d, seq!["trends"@]),
            Err(e) => !present(json_get(v, "data"@)) && e is TrendsEmpty,
        },
{
    let d = data_or(v, ApiError::TrendsEmpty)?;
    let keys = ["trends"];
    assert(key_views(keys@) =~= seq!["trends"@]);
    let rows = match d.path(&keys) {
        Some(Json::Array(a)) => string_items(a),
        _ => Vec::new(),
    };
    Ok((d, rows))
}

/// The daily fund-flow rows (`date,main,small,medium,large,super-large`).
pub fn fund_flow_from(v: Json) -> (r: Result<Vec<String>, ApiError>)
    ensures
        match r {
            Ok(rows) => json_array(json_path(v, seq!["data"@, "klines"@])) is Some
                && views(rows@) == strings_at(v, seq!["data"@, "klines"@]),
            Err(e) => json_array(json_path(v, seq!["data"@, "klines"@])) is None && e is FlowEmpty,
        },
{
    let keys = ["data", "klines"];
    assert(key_views(keys@) =~= seq!["data"@, "klines"@]);
    match v.path(&keys) {
        Some(Json::Array(a)) => Ok(string_items(a)),
        _ => Err(ApiError::FlowEmpty),
    }
}

// ---------- rise/fall distribution ----------

/// `(bucket, count)` pairs of one distribution item: the members whose name
/// is an integer and whose value is an integer number.
pub open spec fn bucket_pairs(es: Seq<(String, Json)>) -> Seq<(i64, i64)>
    decreases es.len(),
{
    if es.len() == 0 {
        Seq::empty()
    } else {
        let rest = bucket_pairs(es.drop_last());
        let e = es.last();
        match (spec_parse_i64(e.0@), json_i64(Some(e.1))) {
            (Some(b), Some(n)) => rest.push((b as i64, n as i64)),
            _ => rest,
        }
    }
}

/// The pairs of all distribution items, item after item; items that are not objects add none.
pub open spec fn fenbu_pairs(items: Seq<Json>) -> Seq<(i64, i64)>
    decreases items.len(),
{
    if items.len() == 0 {
        Seq::empty()
    } else {
        let rest = fenbu_pairs(items.drop_last());
        match items.last() {
            Json::Object(es) => rest + bucket_pairs(es@),
            _ => rest,
        }
    }
}

/// Lexicographic order on pairs.
pub open spec fn pair_le(a: (i64, i64), b: (i64, i64)) -> bool {
    a.0 < b.0 || (a.0 == b.0 && a.1 <= b.1)
}

pub open spec fn sorted_pairs(s: Seq<(i64, i64)>) -> bool {
    forall|i: int, j: int| 0 <= i < j < s.len() ==> pair_le(#[trigger] s[i], #[trigger] s[j])
}

/// Inserts `x` into the sorted `v` after every element not above it.
fn insert_sorted(v: &mut Vec<(i64, i64)>, x: (i64, i64))
    requires
        sorted_pairs(old(v)@),
    ensures
        sorted_pairs(final(v)@),
        final(v)@.to_multiset() == old(v)@.to_multiset().insert(x),
{
    let mut p: usize = 0;
    while p < v.len() && pair_not_above(v[p], x)
        invariant
            p <= v@.len(),
            v@ == old(v)@,
            forall|j: int| 0 <= j < p ==> pair_le(#[trigger] v@[j], x),
        decreases v@.len() - p,
    {
        p += 1;
    }
    let ghost before = v@;
    v.insert(p, x);
    proof {
        assert(v@.remove(p as int) =~= before);
        assert(v@[p as int] == x);
        assert(v@.to_multiset().remove(x) == before.to_multiset());
        assert(v@.to_multiset().count(x) > 0) by {
            assert(v@.contains(x));
        }
        assert(v@.to_multiset() =~= before.to_multiset().insert(x));
        assert forall|i: int, j: int| 0 <= i < j < v@.len() implies pair_le(#[trigger] v@[i], #[trigger] v@[j]) by {
            if j < p {
                assert(v@[i] == before[i] && v@[j] == before[j]);
            } else if j == p {
                assert(v@[i] == before[i]);
            } else if i == p {
                assert(v@[j] == before[j - 1]);
                if p < before.len() {
                    assert(!pair_le(before[p as int], x));
                    assert(pair_le(before[p as int], before[j - 1]) || p == j - 1);
                }
            } else if i < p {
                assert(v@[i] == before[i] && v@[j] == before[j - 1]);
            } else {
                assert(v@[i] == before[i - 1] && v@[j] == before[j - 1]);
            }
        }
    }
}

fn pair_not_above(a: (i64, i64), b: (i64, i64)) -> (r: bool)
    ensures
        r == pair_le(a, b),
{
    a.0 < b.0 || (a.0 == b.0 && a.1 <= b.1)
}

fn bucket_pairs_of(es: &Vec<(String, Json)>) -> (r: Vec<(i64, i64)>)
    ensures
        r@ == bucket_pairs(es@),
{
    let mut r: Vec<(i64, i64)> = Vec::new();
    let mut i: usize = 0;
    while i < es.len()
        invariant
            i <= es@.len(),
            r@ == bucket_pairs(es@.take(i as int)),
        decreases es@.len() - i,
    {
        proof {
            assert(es@.take(i + 1).drop_last() =~= es@.take(i as int));
        }
        let b = parse_i64(es[i].0.as_str());
        let n = es[i].1.as_i64();
        match (b, n) {
            (Some(b), Some(n)) => {
                r.push((b, n));
            },
            _ => {},
        }
        i += 1;
    }
    assert(es@.take(es@.len() as int) =~= es@);
    r
}

fn fenbu_pairs_of(items: &Vec<Json>) -> (r: Vec<(i64, i64)>)
    ensures
        r@ == fenbu_pairs(items@),
{
    let mut r: Vec<(i64, i64)> = Vec::new();
    let mut i: usize = 0;
    while i < items.len()
        invariant
            i <= items@.len(),
            r@ == fenbu_pairs(items@.take(i as int)),
        decreases items@.len() - i,
    {
        proof {
            assert(items@.take(i + 1).drop_last() =~= items@.take(i as int));
        }
        match &items[i] {
            Json::Object(es) => {
                let mut ps = bucket_pairs_of(es);
                let ghost before = r@;
                r.append(&mut ps);
                assert(r@ =~= before + bucket_pairs(es@));
            },
            _ => {},
        }
        i += 1;
    }
    assert(items@.take(items@.len() as int) =~= items@);
    r
}

/// The rise/fall distribution (`data.fenbu`): every `(bucket, count)` pair,
/// the bucket being the percentage change, sorted by bucket then count.
pub fn fenbu_from(v: Json) -> (r: Result<Vec<(i64, i64)>, ApiError>)
    ensures
        match r {
            Ok(out) => json_array(json_path(v, seq!["data"@, "fenbu"@])) matches Some(items)
                && sorted_pairs(out@) && out@.to_multiset() == fenbu_pairs(items).to_multiset(),
            Err(e) => json_array(json_path(v, seq!["data"@, "fenbu"@])) is None && e is FenbuEmpty,
        },
{
    let keys = ["data", "fenbu"];
    assert(key_views(keys@) =~= seq!["data"@, "fenbu"@]);
    let items = array_or(v, &keys, ApiError::FenbuEmpty)?;
    let pairs = fenbu_pairs_of(&items);
    let mut out: Vec<(i64, i64)> = Vec::new();
    let mut i: usize = 0;
    while i < pairs.len()
        invariant
            i <= pairs@.len(),
            sorted_pairs(out@),
            out@.to_multiset() == pairs@.take(i as int).to_multiset(),
        decreases pairs@.len() - i,
    {
        insert_sorted(&mut out, pairs[i]);
        assert(pairs@.take(i + 1) =~= pairs@.take(i as int).push(pairs@[i as int]));
        i += 1;
    }
    assert(pairs@.take(pairs@.len() as int) =~= pairs@);
    Ok(out)
}

/// The sums of the counts of the rising, falling and flat buckets.
pub open spec fn count_sums(s: Seq<(i64, i64)>) -> (int, int, int)
    decreases s.len(),
{
    if s.len() == 0 {
        (0, 0, 0)
    } else {
        let (u, d, f) = count_sums(s.drop_last());
        let (b, n) = s.last();
        if b > 0 { (u + n, d, f) } else if b < 0 { (u, d + n, f) } else { (u, d, f + n) }
    }
}

/// The three running sums stay within `i64` over every prefix of `s`.
pub open spec fn sums_fit(s: Seq<(i64, i64)>) -> bool {
    forall|k: int| 0 <= k <= s.len() ==> {
        let c = #[trigger] count_sums(s.take(k));
        &&& i64::MIN <= c.0 <= i64::MAX
        &&& i64::MIN <= c.1 <= i64::MAX
        &&& i64::MIN <= c.2 <= i64::MAX
    }
}

/// How many stocks rose, fell and stayed flat, from the distribution;
/// `None` when a running sum leaves the `i64` range.
pub fn fenbu_counts(fenbu: &Vec<(i64, i64)>) -> (r: Option<(i64, i64, i64)>)
    ensures
        match r {
            Some(c) => sums_fit(fenbu@) && (c.0 as int, c.1 as int, c.2 as int) == count_sums(fenbu@),
            None => !sums_fit(fenbu@),
        },
{
    let mut up: i64 = 0;
    let mut down: i64 = 0;
    let mut flat: i64 = 0;
    let mut i: usize = 0;
    assert(fenbu@.take(0) =~= Seq::<(i64, i64)>::empty());
    while i < fenbu.len()
        invariant
            i <= fenbu@.len(),
            forall|k: int| 0 <= k <= i ==> {
                let c = #[trigger] count_sums(fenbu@.take(k));
                &&& i64::MIN <= c.0 <= i64::MAX
                &&& i64::MIN <= c.1 <= i64::MAX
                &&& i64::MIN <= c.2 <= i64::MAX
            },
            (up as int, down as int, flat as int) == count_sums(fenbu@.take(i as int)),
        decreases fenbu@.len() - i,
    {
        let (b, n) = fenbu[i];
        proof {
            assert(fenbu@.take(i + 1).drop_last() =~= fenbu@.take(i as int));
        }
        if b > 0 {
            match up.checked_add(n) {
                Some(x) => { up = x; },
                None => {
                    assert(!(i64::MIN <= count_sums(fenbu@.take(i + 1)).0 <= i64::MAX));
                    return None;
                },
            }
        } else if b < 0 {
            match down.checked_add(n) {
                Some(x) => { down = x; },
                None => {
                    assert(!(i64::MIN <= count_sums(fenbu@.take(i + 1)).1 <= i64::MAX));
                    return None;
                },
            }
        } else {
            match flat.checked_add(n) {
                Some(x) => { flat = x; },
                None => {
                    assert(!(i64::MIN <= count_sums(fenbu@.take(i + 1)).2 <= i64::MAX));
                    return None;
                },
            }
        }
        i += 1;
    }
    assert(fenbu@.take(fenbu@.len() as int) =~= fenbu@);
    Some((up, down, flat))
}

/// `{"pool": [], "tc": 0}`, the limit-up pool of a day without data.
pub open spec fn empty_pool(j: Json) -> bool {
    j matches Json::Object(es) && es@.len() == 2 && es@[0].0@ == "pool"@
        && (es@[0].1 matches Json::Array(a) && a@.len() == 0) && es@[1].0@ == "tc"@
        && (es@[1].1 matches Json::Number(n) && n@ == seq!['0'])
}

/// The pool data of a limit-up/limit-down/broken-board response: `data` when
/// present and not null, an empty pool otherwise.
pub fn topic_pool_from(v: Json) -> (r: Json)
    ensures
        present(json_get(v, "data"@)) ==> json_get(v, "data"@) == Some(r),
        !present(json_get(v, "data"@)) ==> empty_pool(r),
{
    match data_or(v, ApiError::ListEmpty) {
        Ok(d) => d,
        Err(_) => {
            let mut es: Vec<(String, Json)> = Vec::new();
            es.push(("pool".to_owned(), Json::Array(Vec::new())));
            let mut zero = String::new();
            crate::text::push_char(&mut zero, '0');
            es.push(("tc".to_owned(), Json::Number(zero)));
            Json::Object(es)
        },
    }
}

/// The ranked stocks of a popularity-rank response (`data`).
pub fn hot_rank_from(v: Json) -> (r: Result<Vec<Json>, ApiError>)
    ensures
        match r {
            Ok(a) => json_array(json_path(v, seq!["data"@])) == Some(a@),
            Err(e) => json_array(json_path(v, seq!["data"@])) is None && e is HotRankEmpty,
        },
{
    let keys = ["data"];
    assert(key_views(keys@) =~= seq!["data"@]);
    array_or(v, &keys, ApiError::HotRankEmpty)
}

/// The current popularity rank of one stock (`data`).
pub fn hot_current_from(v: Json) -> (r: Result<Json, ApiError>)
    ensures
        match r {
            Ok(d) => present(json_get(v, "data"@)) && json_get(v, "data"@) == Some(d),
            Err(e) => !present(json_get(v, "data"@)) && e is RankMissing,
        },
{
    data_or(v, ApiError::RankMissing)
}

/// The popularity-rank history of one stock (`data`).
pub fn hot_history_from(v: Json) -> (r: Result<Vec<Json>, ApiError>)
    ensures
        match r {
            Ok(a) => json_array(json_path(v, seq!["data"@])) == Some(a@),
            Err(e) => json_array(json_path(v, seq!["data"@])) is None && e is RankHistoryMissing,
        },
{
    let keys = ["data"];
    assert(key_views(keys@) =~= seq!["data"@]);
    array_or(v, &keys, ApiError::RankHistoryMissing)
}

/// The posts of a forum response (`re`).
pub fn guba_posts_from(v: Json) -> (r: Result<Vec<Json>, ApiError>)
    ensures
        match r {
            Ok(a) => json_array(json_path(v, seq!["re"@])) == Some(a@),
            Err(e) => json_array(json_path(v, seq!["re"@])) is None && e is PostsEmpty,
        },
{
    let keys = ["re"];
    assert(key_views(keys@) =~= seq!["re"@]);
    array_or(v, &keys, ApiError::PostsEmpty)
}

/// The announcements of an announcement response (`data.list`).
pub fn announcements_from(v: Json) -> (r: Result<Vec<Json>, ApiError>)
    ensures
        match r {
            Ok(a) => json_array(json_path(v, seq!["data"@, "list"@])) == Some(a@),
            Err(e) => json_array(json_path(v, seq!["data"@, "list"@])) is None && e is AnnouncementsEmpty,
        },
{
    let keys = ["data", "list"];
    assert(key_views(keys@) =~= seq!["data"@, "list"@]);
    array_or(v, &keys, ApiError::AnnouncementsEmpty)
}

/// The articles of a news-search response (`result.cmsArticleWebOld`).
pub fn news_from(v: Json) -> (r: Result<Vec<Json>, ApiError>)
    ensures
        match r {
            Ok(a) => json_array(json_path(v, seq!["result"@, "cmsArticleWebOld"@])) == Some(a@),
            Err(e) => json_array(json_path(v, seq!["result"@, "cmsArticleWebOld"@])) is None && e is NewsEmpty,
        },
{
    let keys = ["result", "cmsArticleWebOld"];
    assert(key_views(keys@) =~= seq!["result"@, "cmsArticleWebOld"@]);
    array_or(v, &keys, ApiError::NewsEmpty)
}

/// The state of a watch-list response: its integer `state`, `-1` when absent.
pub open spec fn watch_state(v: Json) -> int {
    match json_i64(json_get(v, "state"@)) {
        Some(s) => s,
        None => -1,
    }
}

/// Accepts a watch-list response whose state is 0; otherwise reports the
/// state and the service's message (`?` when it has none).
pub fn myfavor_check(v: &Json) -> (r: Result<(), ApiError>)
    ensures
        match r {
            Ok(_) => watch_state(*v) == 0,
            Err(e) => watch_state(*v) != 0 && (e matches ApiError::WatchList(st, msg)
                && st == watch_state(*v) && msg@ == (match json_str(json_get(*v, "message"@)) {
                    Some(m) => m,
                    None => seq!['?'],
                })),
        },
{
    let state: i64 = match v.get("state") {
        Some(s) => match s.as_i64() {
            Some(n) => n,
            None => -1,
        },
        None => -1,
    };
    if state != 0 {
        let msg = match v.get("message") {
            Some(Json::Str(m)) => m.clone(),
            _ => {
                let mut q = String::new();
                crate::text::push_char(&mut q, '?');
                q
            },
        };
        return Err(ApiError::WatchList(state, msg));
    }
    Ok(())
}

/// `(gid, name)` of the groups whose `gid` and `gname` are strings, in order.
pub open spec fn group_pairs(items: Seq<Json>) -> Seq<(Seq<char>, Seq<char>)>
    decreases items.len(),
{
    if items.len() == 0 {
        Seq::empty()
    } else {
        let rest = group_pairs(items.drop_last());
        match (json_str(json_get(items.last(), "gid"@)), json_str(json_get(items.last(), "gname"@))) {
            (Some(g), Some(n)) => rest.push((g, n)),
            _ => rest,
        }
    }
}

pub open spec fn pair_views(v: Seq<(String, String)>) -> Seq<(Seq<char>, Seq<char>)> {
    Seq::new(v.len(), |i: int| (v[i].0@, v[i].1@))
}

/// The watch-list groups (`data.ginfolist`) as `(gid, name)`.
pub fn watch_groups_from(v: Json) -> (r: Result<Vec<(String, String)>, ApiError>)
    ensures
        match r {
            Ok(gs) => json_array(json_path(v, seq!["data"@, "ginfolist"@])) matches Some(items)
                && pair_views(gs@) == group_pairs(items),
            Err(e) => json_array(json_path(v, seq!["data"@, "ginfolist"@])) is None && e is GroupsEmpty,
        },
{
    let keys = ["data", "ginfolist"];
    assert(key_views(keys@) =~= seq!["data"@, "ginfolist"@]);
    let items = array_or(v, &keys, ApiError::GroupsEmpty)?;
    let mut out: Vec<(String, String)> = Vec::new();
    let mut i: usize = 0;
    while i < items.len()
        invariant
            i <= items@.len(),
            pair_views(out@) == group_pairs(items@.take(i as int)),
        decreases items@.len() - i,
    {
        proof {
            assert(items@.take(i + 1).drop_last() =~= items@.take(i as int));
            assert(items@.take(i + 1).last() == items@[i as int]);
        }
        match (items[i].get("gid"), items[i].get("gname")) {
            (Some(Json::Str(g)), Some(Json::Str(n))) => {
                out.push((g.clone(), n.clone()));
                assert(pair_views(out@) =~= group_pairs(items@.take(i as int)).push((g@, n@)));
            },
            _ => {},
        }
        i += 1;
    }
    assert(items@.take(items@.len() as int) =~= items@);
    Ok(out)
}

/// secids of the watch-list entries whose `security` reads `market$code$id`.
pub open spec fn entry_secids(items: Seq<Json>) -> Seq<Seq<char>>
    decreases items.len(),
{
    if items.len() == 0 {
        Seq::empty()
    } else {
        let rest = entry_secids(items.drop_last());
        match json_str(json_get(items.last(), "security"@)) {
            Some(sec) => match watch_entry_secid(sec) {
                Some(id) => rest.push(id),
                None => rest,
            },
            None => rest,
        }
    }
}

/// The secids of one watch-list group (`data.stkinfolist`); none when absent.
pub fn watch_stocks_from(v: Json) -> (r: Vec<String>)
    ensures
        views(r@) == (match json_array(json_path(v, seq!["data"@, "stkinfolist"@])) {
            Some(items) => entry_secids(items),
            None => Seq::empty(),
        }),
{
    let keys = ["data", "stkinfolist"];
    assert(key_views(keys@) =~= seq!["data"@, "stkinfolist"@]);
    let items = match array_at(v, &keys) {
        Some(a) => a,
        None => Vec::new(),
    };
    let mut out: Vec<String> = Vec::new();
    let mut i: usize = 0;
    while i < items.len()
        invariant
            i <= items@.len(),
            views(out@) == entry_secids(items@.take(i as int)),
        decreases items@.len() - i,
    {
        proof {
            assert(items@.take(i + 1).drop_last() =~= items@.take(i as int));
            assert(items@.take(i + 1).last() == items@[i as int]);
        }
        match items[i].get("security") {
            Some(Json::Str(sec)) => match watch_entry_to_secid(sec.as_str()) {
                Some(id) => {
                    out.push(id);
                    assert(views(out@) =~= entry_secids(items@.take(i as int)).push(out@.last()@));
                },
                None => {},
            },
            _ => {},
        }
        i += 1;
    }
    assert(items@.take(items@.len() as int) =~= items@);
    out
}

/// The rows of a data-center report (`result.data`).
pub fn report_rows_from(v: Json, report: &str) -> (r: Result<Vec<Json>, ApiError>)
    ensures
        match r {
            Ok(a) => json_array(json_path(v, seq!["result"@, "data"@])) == Some(a@),
            Err(e) => json_array(json_path(v, seq!["result"@, "data"@])) is None
                && (e matches ApiError::ReportEmpty(s) && s@ == report@),
        },
{
    let keys = ["result", "data"];
    assert(key_views(keys@) =~= seq!["result"@, "data"@]);
    array_or(v, &keys, ApiError::ReportEmpty(report.to_owned()))
}

/// Accepts a data-center response whose `result` is present and not null;
/// otherwise reports its `message` (`无数据` when it has none).
pub fn datacenter_check(v: &Json) -> (r: Result<(), ApiError>)
    ensures
        match r {
            Ok(_) => present(json_get(*v, "result"@)),
            Err(e) => !present(json_get(*v, "result"@)) && (e matches ApiError::DataCenter(msg)
                && msg@ == (match json_str(json_get(*v, "message"@)) {
                    Some(m) => m,
                    None => "无数据"@,
                })),
        },
{
    let ok = match v.get("result") {
        Some(r) => !r.is_null(),
        None => false,
    };
    if !ok {
        let msg = match v.get("message") {
            Some(Json::Str(m)) => m.clone(),
            _ => "无数据".to_owned(),
        };
        return Err(ApiError::DataCenter(msg));
    }
    Ok(())
}

/// A popularity-rank response reports success: its `code` is the integer 0.
pub fn emappdata_ok(v: &Json) -> (b: bool)
    ensures
        b == (json_i64(json_get(*v, "code"@)) == Some(0int)),
{
    match v.get("code") {
        Some(c) => match c.as_i64() {
            Some(n) => n == 0,
            None => false,
        },
        None => false,
    }
}

/// Search results `(QuoteID, (Code, Name), Classify)` of the entries that have
/// string `QuoteID`, `Code` and `Name`; `Classify` is empty when not a string.
pub open spec fn suggestions(items: Seq<Json>) -> Seq<(Seq<char>, Seq<char>, Seq<char>, Seq<char>)>
    decreases items.len(),
{
    if items.len() == 0 {
        Seq::empty()
    } else {
        let rest = suggestions(items.drop_last());
        let it = items.last();
        match (json_str(json_get(it, "QuoteID"@)), json_str(json_get(it, "Code"@)), json_str(json_get(it, "Name"@))) {
            (Some(q), Some(c), Some(n)) => rest.push((q, c, n, match json_str(json_get(it, "Classify"@)) {
                Some(k) => k,
                None => Seq::empty(),
            })),
            _ => rest,
        }
    }
}

pub open spec fn suggestion_views(v: Seq<(String, (String, String), String)>) -> Seq<(Seq<char>, Seq<char>, Seq<char>, Seq<char>)> {
    Seq::new(v.len(), |i: int| (v[i].0@, v[i].1.0@, v[i].1.1@, v[i].2@))
}

/// The results of a security search (`QuotationCodeTable.Data`); none when absent.
pub fn suggest_list_from(v: Json) -> (r: Vec<(String, (String, String), String)>)
    ensures
        suggestion_views(r@) == (match json_array(json_path(v, seq!["QuotationCodeTable"@, "Data"@])) {
            Some(items) => suggestions(items),
            None => Seq::empty(),
        }),
{
    let keys = ["QuotationCodeTable", "Data"];
    assert(key_views(keys@) =~= seq!["QuotationCodeTable"@, "Data"@]);
    let items = match array_at(v, &keys) {
        Some(a) => a,
        None => Vec::new(),
    };
    let mut out: Vec<(String, (String, String), String)> = Vec::new();
    let mut i: usize = 0;
    while i < items.len()
        invariant
            i <= items@.len(),
            suggestion_views(out@) == suggestions(items@.take(i as int)),
        decreases items@.len() - i,
    {
        proof {
            assert(items@.take(i + 1).drop_last() =~= items@.take(i as int));
            assert(items@.take(i + 1).last() == items@[i as int]);
        }
        let it = &items[i];
        match (it.get("QuoteID"), it.get("Code"), it.get("Name")) {
            (Some(Json::Str(q)), Some(Json::Str(c)), Some(Json::Str(n))) => {
                let k = match it.get("Classify") {
                    Some(Json::Str(k)) => k.clone(),
                    _ => String::new(),
                };
                out.push((q.clone(), (c.clone(), n.clone()), k));
                assert(suggestion_views(out@) =~= suggestions(items@.take(i as int)).push(suggestion_views(out@).last()));
            },
            _ => {},
        }
        i += 1;
    }
    assert(items@.take(items@.len() as int) =~= items@);
    out
}

// ---------- requests ----------

/// The batches a quote request is split into so that no URL grows too long:
/// one request for up to 80 secids, else runs of 80 and a last shorter run.
pub open spec fn batches(n: int) -> Seq<(int, int)> {
    if n <= 80 {
        seq![(0, n)]
    } else {
        Seq::new(((n + 79) / 80) as nat, |k: int| (80 * k, if 80 * k + 80 < n { 80 * k + 80 } else { n }))
    }
}

/// The `[start, end)` ranges of the quote batches for `n` secids.
pub fn quote_batches(n: usize) -> (r: Vec<(usize, usize)>)
    ensures
        r@.len() == batches(n as int).len(),
        forall|k: int| 0 <= k < r@.len() ==> (#[trigger] r@[k]).0 as int == batches(n as int)[k].0
            && r@[k].1 as int == batches(n as int)[k].1,
{
    let mut r: Vec<(usize, usize)> = Vec::new();
    if n <= 80 {
        r.push((0, n));
        return r;
    }
    let mut start: usize = 0;
    let ghost total = (n + 79) / 80;
    while start < n
        invariant
            n > 80,
            start <= n,
            start == (if 80 * r@.len() < n { 80 * r@.len() as int } else { n as int }),
            r@.len() <= total,
            total == (n + 79) / 80,
            start < n ==> r@.len() < total,
            forall|k: int| 0 <= k < r@.len() ==> (#[trigger] r@[k]).0 as int == batches(n as int)[k].0
                && r@[k].1 as int == batches(n as int)[k].1,
        decreases n - start,
    {
        let end: usize = if n - start > 80 { start + 80 } else { n };
        r.push((start, end));
        start = end;
        proof {
            if start < n {
                assert(80 * r@.len() < n);
            }
        }
    }
    r
}

/// The quote batches split `n` secids into consecutive runs that start at the
/// first, end at the last, and cover every one in order; no run is longer
/// than 80, and none is empty when there are secids.
pub proof fn lemma_batches_cover(n: int)
    requires
        n >= 0,
    ensures
        batches(n).len() >= 1,
        batches(n)[0].0 == 0,
        batches(n).last().1 == n,
        forall|k: int| 0 <= k < batches(n).len() - 1 ==> (#[trigger] batches(n)[k]).1 == batches(n)[k + 1].0,
        forall|k: int| 0 <= k < batches(n).len() ==> (#[trigger] batches(n)[k]).0 <= batches(n)[k].1 <= batches(n)[k].0 + 80,
        n > 0 ==> forall|k: int| 0 <= k < batches(n).len() ==> (#[trigger] batches(n)[k]).0 < batches(n)[k].1,
{
    if n > 80 {
        let t = (n + 79) / 80;
        assert(80 * t <= n + 79 && n + 79 < 80 * t + 80) by (nonlinear_arith)
            requires
                t == (n + 79) / 80,
                n > 80,
        ;
        let b = batches(n);
        assert(b.len() == t);
        assert forall|k: int| 0 <= k < t implies (#[trigger] b[k]).0 == 80 * k && 80 * k < n && (k < t - 1 ==> 80 * k + 80 < n) by {
            assert(80 * k <= 80 * (t - 1)) by (nonlinear_arith)
                requires
                    k <= t - 1,
            ;
        }
        assert(b.last() == b[t - 1]);
        assert(80 * (t - 1) + 80 >= n);
    }
}

/// The batch-quote secid list: the secids separated by commas.
pub fn join_secids(secids: &Vec<String>) -> (s: String)
    ensures
        s@ == crate::text::join_with(views(secids@), ","@),
{
    crate::text::join_strings(secids, ",")
}

/// The index of the first `c` in `s`.
pub open spec fn find_first(s: Seq<char>, c: char) -> Option<int> {
    if exists|k: int| 0 <= k < s.len() && #[trigger] s[k] == c {
        Some(choose|k: int| 0 <= k < s.len() && s[k] == c && forall|j: int| 0 <= j < k ==> #[trigger] s[j] != c)
    } else {
        None
    }
}

/// The index of the last `c` in `s`.
pub open spec fn find_last(s: Seq<char>, c: char) -> Option<int> {
    if exists|k: int| 0 <= k < s.len() && #[trigger] s[k] == c {
        Some(choose|k: int| 0 <= k < s.len() && s[k] == c && forall|j: int| k < j < s.len() ==> #[trigger] s[j] != c)
    } else {
        None
    }
}

/// The JSON text of a response that may be wrapped as JSONP (`cb({...});`):
/// the trimmed body, or, when it opens with neither `{` nor `[` and holds a
/// `(` before its last `)`, what lies between the first `(` and the last `)`.
pub open spec fn json_payload(text: Seq<char>) -> Seq<char> {
    let t = crate::text::trim(text);
    match (find_first(t, '('), find_last(t, ')')) {
        (Some(l), Some(r)) => if !(t.len() > 0 && (t[0] == '{' || t[0] == '[')) && l < r {
            t.subrange(l + 1, r)
        } else {
            t
        },
        _ => t,
    }
}

fn rfind_char(cs: &Vec<char>, c: char) -> (r: Option<usize>)
    ensures
        match r {
            Some(k) => k < cs@.len() && find_last(cs@, c) == Some(k as int),
            None => find_last(cs@, c) is None,
        },
{
    let mut i: usize = cs.len();
    while i > 0
        invariant
            i <= cs@.len(),
            forall|j: int| i <= j < cs@.len() ==> #[trigger] cs@[j] != c,
        decreases i,
    {
        if cs[i - 1] == c {
            proof {
                let s = cs@;
                let k0 = (i - 1) as int;
                assert(s[k0] == c);
                let k = choose|k: int| 0 <= k < s.len() && s[k] == c && forall|j: int| k < j < s.len() ==> #[trigger] s[j] != c;
                assert(0 <= k0 < s.len() && s[k0] == c && forall|j: int| k0 < j < s.len() ==> #[trigger] s[j] != c);
                if k < k0 {
                    assert(s[k0] != c);
                } else if k > k0 {
                    assert(s[k] != c);
                }
            }
            return Some(i - 1);
        }
        i -= 1;
    }
    None
}

/// The JSON text inside a response body.
pub fn jsonp_payload(text: &str) -> (r: String)
    ensures
        r@ == json_payload(text@),
{
    let t = crate::text::trim_str(text);
    let cs = chars_of(t.as_str());
    let l = crate::text::find_char(&cs, '(');
    let rr = rfind_char(&cs, ')');
    proof {
        match l {
            Some(k) => {
                let s = cs@;
                let k2 = choose|k2: int| 0 <= k2 < s.len() && s[k2] == '(' && forall|j: int| 0 <= j < k2 ==> #[trigger] s[j] != '(';
                assert(s[k as int] == '(');
                assert(0 <= k < s.len() && s[k as int] == '(' && forall|j: int| 0 <= j < k ==> #[trigger] s[j] != '(');
                if k2 < k {
                    assert(s[k2] != '(');
                } else if k2 > k {
                    assert(s[k as int] != '(');
                }
                assert(find_first(s, '(') == Some(k as int));
            },
            None => {},
        }
    }
    match (l, rr) {
        (Some(a), Some(b)) => {
            let wrapped = !(cs.len() > 0 && (cs[0] == '{' || cs[0] == '['));
            if wrapped && a < b {
                let inner = crate::text::slice_of(&cs, a + 1, b);
                crate::text::string_from_chars(inner.as_slice())
            } else {
                t
            }
        },
        _ => t,
    }
}

/// The limit-up/limit-down/broken-board pool URL and sort order of a pool
/// code: pools other than limit-up are sorted by sealing funds.
pub fn topic_pool_request(kind: &str) -> (r: (String, &'static str))
    ensures
        r.0@ == "https://push2ex.eastmoney.com/getTopic"@ + kind@ + "Pool"@,
        r.1@ == (if kind@ == "ZT"@ { "fbt:asc"@ } else { "fund:asc"@ }),
{
    let mut url = "https://push2ex.eastmoney.com/getTopic".to_owned();
    push_str(&mut url, kind);
    push_str(&mut url, "Pool");
    let sort = if crate::json::str_eq(kind, "ZT") { "fbt:asc" } else { "fund:asc" };
    (url, sort)
}

/// One query parameter.
pub open spec fn param(k: Seq<char>, v: Seq<char>) -> (Seq<char>, Seq<char>) {
    (k, v)
}

/// The query of a data-center report: the report, all columns, the first
/// page of `num` rows, the filter and the sort when given, and the F10
/// source for the F10 host.
pub open spec fn report_query(report: Seq<char>, filter: Seq<char>, sort_col: Seq<char>, sort_type: Seq<char>, num: nat, f10: bool) -> Seq<(Seq<char>, Seq<char>)> {
    let base = seq![
        param("reportName"@, report),
        param("columns"@, "ALL"@),
        param("pageNumber"@, "1"@),
        param("pageSize"@, crate::text::decimal(num)),
    ];
    let with_filter = if filter.len() > 0 { base.push(param("filter"@, filter)) } else { base };
    let with_sort = if sort_col.len() > 0 {
        with_filter.push(param("sortColumns"@, sort_col)).push(param("sortTypes"@, sort_type))
    } else {
        with_filter
    };
    if f10 {
        with_sort.push(param("source"@, "HSF10"@)).push(param("client"@, "PC"@))
    } else {
        with_sort
    }
}

/// The report URL: the F10 host or the data-center host.
pub open spec fn report_url(f10: bool) -> Seq<char> {
    if f10 {
        "https://datacenter.eastmoney.com/securities/api/data/v1/get"@
    } else {
        "https://datacenter-web.eastmoney.com/api/data/v1/get"@
    }
}

pub open spec fn param_views(v: Seq<(String, String)>) -> Seq<(Seq<char>, Seq<char>)> {
    Seq::new(v.len(), |i: int| (v[i].0@, v[i].1@))
}

fn push_param(ps: &mut Vec<(String, String)>, k: &str, v: &str)
    ensures
        param_views(final(ps)@) == param_views(old(ps)@).push(param(k@, v@)),
{
    ps.push((k.to_owned(), v.to_owned()));
    assert(param_views(ps@) =~= param_views(old(ps)@).push(param(k@, v@)));
}

/// The URL and query of a data-center report request.
pub fn report_request(report: &str, filter: &str, sort_col: &str, sort_type: &str, num: usize, f10: bool)
    -> (r: (String, Vec<(String, String)>))
    ensures
        r.0@ == report_url(f10),
        param_views(r.1@) == report_query(report@, filter@, sort_col@, sort_type@, num as nat, f10),
{
    let page_size = crate::text::decimal_string(num as u64);
    let mut ps: Vec<(String, String)> = Vec::new();
    push_param(&mut ps, "reportName", report);
    push_param(&mut ps, "columns", "ALL");
    push_param(&mut ps, "pageNumber", "1");
    push_param(&mut ps, "pageSize", page_size.as_str());
    if chars_of(filter).len() > 0 {
        push_param(&mut ps, "filter", filter);
    }
    if chars_of(sort_col).len() > 0 {
        push_param(&mut ps, "sortColumns", sort_col);
        push_param(&mut ps, "sortTypes", sort_type);
    }
    let url = if f10 {
        push_param(&mut ps, "source", "HSF10");
        push_param(&mut ps, "client", "PC");
        "https://datacenter.eastmoney.com/securities/api/data/v1/get".to_owned()
    } else {
        "https://datacenter-web.eastmoney.com/api/data/v1/get".to_owned()
    };
    (url, ps)
}

// ---------- request pacing ----------

/// The least time between two requests to the services, in nanoseconds
/// (150 ms), so that the quote clusters do not cut the connection.
pub const REQUEST_GAP_NANOS: u64 = 150_000_000;

/// How long to wait before the next request, given the nanoseconds since the
/// last one: what is left of the gap, or nothing once it has passed.
pub fn pacing_wait(elapsed_nanos: u64) -> (w: u64)
    ensures
        w == (if elapsed_nanos < REQUEST_GAP_NANOS { REQUEST_GAP_NANOS - elapsed_nanos } else { 0 }),
        elapsed_nanos + w >= REQUEST_GAP_NANOS,
{
    if elapsed_nanos < REQUEST_GAP_NANOS {
        REQUEST_GAP_NANOS - elapsed_nanos
    } else {
        0
    }
}

// ---------- mirror hosts ----------

/// What the client does after one request to a quote host, the hosts being
/// tried in order.
#[derive(PartialEq, Eq, Structural, Debug, Clone, Copy)]
pub enum HostStep {
    /// Use the answer; `true` when it came from a host other than the first.
    Answer(bool),
    /// Try the host at this index next.
    Retry(usize),
    /// Every host failed.
    Fail,
}

/// The step after the request to host `index` of `hosts` succeeded (`ok`) or
/// failed: a success is used, a failure moves on to the next host, and the
/// last host's failure ends the attempt.
pub fn host_step(index: usize, hosts: usize, ok: bool) -> (s: HostStep)
    requires
        index < hosts,
    ensures
        s == (if ok {
            HostStep::Answer(index > 0)
        } else if index + 1 < hosts {
            HostStep::Retry((index + 1) as usize)
        } else {
            HostStep::Fail
        }),
{
    if ok {
        HostStep::Answer(index > 0)
    } else if index + 1 < hosts {
        HostStep::Retry(index + 1)
    } else {
        HostStep::Fail
    }
}

// ---------- request ids ----------

/// The lowercase hexadecimal digit of a value below 16.
pub open spec fn hex_char(v: int) -> char {
    if v < 10 { ((v + 48) as u32) as char } else { ((v + 87) as u32) as char }
}

/// The `k` lowest hexadecimal digits of `x`, most significant first.
pub open spec fn hex_digits(x: nat, k: nat) -> Seq<char>
    decreases k,
{
    if k == 0 { Seq::empty() } else { hex_digits(x / 16, (k - 1) as nat).push(hex_char((x % 16) as int)) }
}

/// A uuid-shaped id from 128 bits: their 32 hexadecimal digits grouped 8-4-4-4-12.
pub open spec fn uuid_text(x: nat) -> Seq<char> {
    let h = hex_digits(x, 32);
    h.subrange(0, 8) + seq!['-'] + h.subrange(8, 12) + seq!['-'] + h.subrange(12, 16) + seq!['-']
        + h.subrange(16, 20) + seq!['-'] + h.subrange(20, 32)
}

fn hex_digit(v: u128) -> (c: char)
    requires
        v < 16,
    ensures
        c == hex_char(v as int),
{
    let cs = ['0', '1', '2', '3', '4', '5', '6', '7', '8', '9', 'a', 'b', 'c', 'd', 'e', 'f'];
    assert(cs@ =~= seq!['0', '1', '2', '3', '4', '5', '6', '7', '8', '9', 'a', 'b', 'c', 'd', 'e', 'f']);
    cs[v as usize]
}

proof fn lemma_hex_digits_len(x: nat, k: nat)
    ensures
        hex_digits(x, k).len() == k,
    decreases k,
{
    if k > 0 {
        lemma_hex_digits_len(x / 16, (k - 1) as nat);
    }
}

/// The id the popularity-rank service asks each request to carry, from 128
/// bits (the clock and the process id mixed together).
pub fn global_id_from(x: u128) -> (s: String)
    ensures
        s@ == uuid_text(x as nat),
{
    // digits come out least significant first
    let mut rev: Vec<char> = Vec::new();
    let mut m: u128 = x;
    let mut k: usize = 0;
    while k < 32
        invariant
            k <= 32,
            rev@.len() == k,
            hex_digits(x as nat, 32) == hex_digits(m as nat, (32 - k) as nat) + rev@.reverse(),
        decreases 32 - k,
    {
        let d = m % 16;
        let ghost before = rev@;
        rev.push(hex_digit(d));
        proof {
            let n = (32 - k - 1) as nat;
            assert(hex_digits(m as nat, (32 - k) as nat) == hex_digits((m / 16) as nat, n).push(hex_char(d as int)));
            assert(rev@.reverse() =~= seq![hex_char(d as int)] + before.reverse());
            assert(hex_digits((m / 16) as nat, n).push(hex_char(d as int)) + before.reverse()
                =~= hex_digits((m / 16) as nat, n) + rev@.reverse());
        }
        m = m / 16;
        k += 1;
    }
    assert(hex_digits(m as nat, 0) =~= Seq::<char>::empty());
    let mut s = String::new();
    let mut i: usize = 32;
    let ghost h = hex_digits(x as nat, 32);
    assert(h =~= rev@.reverse());
    while i > 0
        invariant
            i <= 32,
            rev@.len() == 32,
            h == rev@.reverse(),
            s@ == with_dashes(h.take(32 - i)),
        decreases i,
    {
        i -= 1;
        let ghost before = s@;
        let pos: usize = 31 - i;
        if pos == 8 || pos == 12 || pos == 16 || pos == 20 {
            push_char(&mut s, '-');
        }
        push_char(&mut s, rev[i]);
        proof {
            assert(h[pos as int] == rev@[i as int]);
            assert(h.take(pos + 1).drop_last() =~= h.take(pos as int));
            lemma_with_dashes_step(h, pos as int);
        }
    }
    proof {
        assert(h.take(32) =~= h);
        lemma_hex_digits_len(x as nat, 32);
        lemma_with_dashes_full(h);
    }
    s
}

/// Digits with a dash before the 9th, 13th, 17th and 21st.
pub open spec fn with_dashes(d: Seq<char>) -> Seq<char>
    decreases d.len(),
{
    if d.len() == 0 {
        Seq::empty()
    } else {
        let p = d.len() - 1;
        let prev = with_dashes(d.drop_last());
        if p == 8 || p == 12 || p == 16 || p == 20 { prev.push('-').push(d.last()) } else { prev.push(d.last()) }
    }
}

proof fn lemma_with_dashes_step(h: Seq<char>, pos: int)
    requires
        0 <= pos < h.len(),
    ensures
        with_dashes(h.take(pos + 1)) == (if pos == 8 || pos == 12 || pos == 16 || pos == 20 {
            with_dashes(h.take(pos)).push('-').push(h[pos])
        } else {
            with_dashes(h.take(pos)).push(h[pos])
        }),
{
    assert(h.take(pos + 1).drop_last() =~= h.take(pos));
}

proof fn lemma_with_dashes_full(h: Seq<char>)
    requires
        h.len() == 32,
    ensures
        with_dashes(h) == h.subrange(0, 8) + seq!['-'] + h.subrange(8, 12) + seq!['-'] + h.subrange(12, 16)
            + seq!['-'] + h.subrange(16, 20) + seq!['-'] + h.subrange(20, 32),
{
    assert(h.take(32) =~= h);
    assert forall|k: int| 0 <= k <= 32 implies #[trigger] with_dashes(h.take(k)) == dashed_prefix(h, k) by {
        lemma_with_dashes_prefix(h, k);
    }
    assert(with_dashes(h.take(32)) == dashed_prefix(h, 32));
    assert(dashed_prefix(h, 32) =~= h.subrange(0, 8) + seq!['-'] + h.subrange(8, 12) + seq!['-'] + h.subrange(12, 16)
        + seq!['-'] + h.subrange(16, 20) + seq!['-'] + h.subrange(20, 32));
}

/// The first `k` digits of `h` with their dashes, written out.
pub open spec fn dashed_prefix(h: Seq<char>, k: int) -> Seq<char> {
    if k <= 8 {
        h.take(k)
    } else if k <= 12 {
        h.take(8) + seq!['-'] + h.subrange(8, k)
    } else if k <= 16 {
        h.take(8) + seq!['-'] + h.subrange(8, 12) + seq!['-'] + h.subrange(12, k)
    } else if k <= 20 {
        h.take(8) + seq!['-'] + h.subrange(8, 12) + seq!['-'] + h.subrange(12, 16) + seq!['-'] + h.subrange(16, k)
    } else {
        h.take(8) + seq!['-'] + h.subrange(8, 12) + seq!['-'] + h.subrange(12, 16) + seq!['-'] + h.subrange(16, 20)
            + seq!['-'] + h.subrange(20, k)
    }
}

proof fn lemma_with_dashes_prefix(h: Seq<char>, k: int)
    requires
        0 <= k <= h.len(),
        h.len() == 32,
    ensures
        with_dashes(h.take(k)) == dashed_prefix(h, k),
    decreases k,
{
    if k > 0 {
        lemma_with_dashes_prefix(h, k - 1);
        lemma_with_dashes_step(h, k - 1);
        assert(with_dashes(h.take(k)) =~= dashed_prefix(h, k));
    } else {
        assert(h.take(0) =~= Seq::<char>::empty());
        assert(dashed_prefix(h, 0) =~= Seq::<char>::empty());
    }
}

} // verus!
