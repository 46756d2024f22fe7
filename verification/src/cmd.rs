//! The choices the commands make from their options: which sort field,
//! K-line period, adjustment, sector list or pool a name selects; which
//! watch-list group to show; which billboard rows to keep; where the login
//! cookie lives and how it is shown.
use vstd::prelude::*;
use crate::json::{json_get, spec_str_at, str_eq, Json};
use crate::text::{
    byte_boundary, byte_index, chars_of, has_byte_boundary, join_strings, join_with, push_char,
    push_str, slice_of, string_from_chars, trim, trim_str, utf8_len, utf8_len_upto, views,
};

verus! {

/// Why a command cannot go on.
#[derive(Debug, Clone)]
pub enum CmdError {
    BadRankField,
    BadPeriod,
    BadAdjust,
    BadBoardKind,
    BadPoolKind,
    /// The search found nothing for this keyword.
    NoSearchResult(String),
    /// The security has no popularity rank (not an A share).
    NoRankCode,
    /// No pool data in the last twelve days.
    NoPoolData,
    /// The watch list has no group.
    NoGroup,
    /// No group has this id or name; the names of the groups there are.
    GroupNotFound(String, Vec<String>),
    /// No login cookie is configured.
    NoCookie,
    /// The cookie to save is empty once trimmed.
    EmptyCookie,
}

impl CmdError {
    /// The message shown to the user.
    pub fn message(&self) -> (m: String)
        ensures
            match self {
                CmdError::BadRankField => m@ == "--by 仅支持 change/amount/turnover/volume/pe/mcap/flow/speed"@,
                CmdError::BadPeriod => m@ == "period 仅支持 day/week/month/5m/15m/30m/60m"@,
                CmdError::BadAdjust => m@ == "fq 仅支持 qfq/hfq/none"@,
                CmdError::BadBoardKind => m@ == "板块类型仅支持 industry/concept/region"@,
                CmdError::BadPoolKind => m@ == "类型仅支持 zt(涨停)/dt(跌停)/zb(炸板)"@,
                CmdError::NoSearchResult(kw) => m@ == "未搜到: "@ + kw@,
                CmdError::NoRankCode => m@ == "该证券不支持人气排名（仅A股）"@,
                CmdError::NoPoolData => m@ == "近 12 天无数据"@,
                CmdError::NoGroup => m@ == "没有自选分组"@,
                CmdError::GroupNotFound(g, names) => m@ == "未找到分组 \""@ + g@ + "\"。可用分组: "@
                    + join_with(views(names@), ", "@),
                CmdError::NoCookie => m@ == no_cookie_text(),
                CmdError::EmptyCookie => m@ == "Cookie 为空"@,
            },
    {
        match self {
            CmdError::BadRankField => "--by 仅支持 change/amount/turnover/volume/pe/mcap/flow/speed".to_owned(),
            CmdError::BadPeriod => "period 仅支持 day/week/month/5m/15m/30m/60m".to_owned(),
            CmdError::BadAdjust => "fq 仅支持 qfq/hfq/none".to_owned(),
            CmdError::BadBoardKind => "板块类型仅支持 industry/concept/region".to_owned(),
            CmdError::BadPoolKind => "类型仅支持 zt(涨停)/dt(跌停)/zb(炸板)".to_owned(),
            CmdError::NoSearchResult(kw) => {
                let mut m = "未搜到: ".to_owned();
                push_str(&mut m, kw.as_str());
                m
            },
            CmdError::NoRankCode => "该证券不支持人气排名（仅A股）".to_owned(),
            CmdError::NoPoolData => "近 12 天无数据".to_owned(),
            CmdError::NoGroup => "没有自选分组".to_owned(),
            CmdError::GroupNotFound(g, names) => {
                let mut m = "未找到分组 \"".to_owned();
                push_str(&mut m, g.as_str());
                push_str(&mut m, "\"。可用分组: ");
                let list = join_strings(names, ", ");
                push_str(&mut m, list.as_str());
                m
            },
            CmdError::NoCookie => no_cookie_message(),
            CmdError::EmptyCookie => "Cookie 为空".to_owned(),
        }
    }
}

pub open spec fn no_cookie_text() -> Seq<char> {
    "未配置 Cookie。自选股需要登录态：\n  1. 浏览器登录 quote.eastmoney.com 后，F12 → Network → 任意请求 → 复制完整 Cookie\n  2. 运行: em config set-cookie   (然后粘贴，Ctrl-D 结束)\n     或设置环境变量 EM_COOKIE"@
}

fn no_cookie_message() -> (m: String)
    ensures
        m@ == no_cookie_text(),
{
    "未配置 Cookie。自选股需要登录态：\n  1. 浏览器登录 quote.eastmoney.com 后，F12 → Network → 任意请求 → 复制完整 Cookie\n  2. 运行: em config set-cookie   (然后粘贴，Ctrl-D 结束)\n     或设置环境变量 EM_COOKIE".to_owned()
}

// ---------- option values ----------

/// The quote field a ranking is sorted by.
pub open spec fn rank_field(by: Seq<char>) -> Option<Seq<char>> {
    if by == "change"@ || by == "pct"@ {
        Some("f3"@)
    } else if by == "amount"@ {
        Some("f6"@)
    } else if by == "turnover"@ {
        Some("f8"@)
    } else if by == "volume"@ {
        Some("f5"@)
    } else if by == "pe"@ {
        Some("f9"@)
    } else if by == "mcap"@ || by == "market-cap"@ {
        Some("f20"@)
    } else if by == "flow"@ || by == "main-inflow"@ {
        Some("f62"@)
    } else if by == "speed"@ {
        Some("f22"@)
    } else {
        None
    }
}

/// The quote field that `--by` names.
pub fn rank_fid(by: &str) -> (r: Result<&'static str, CmdError>)
    ensures
        match r {
            Ok(f) => rank_field(by@) == Some(f@),
            Err(e) => rank_field(by@) is None && e is BadRankField,
        },
{
    if str_eq(by, "change") || str_eq(by, "pct") {
        Ok("f3")
    } else if str_eq(by, "amount") {
        Ok("f6")
    } else if str_eq(by, "turnover") {
        Ok("f8")
    } else if str_eq(by, "volume") {
        Ok("f5")
    } else if str_eq(by, "pe") {
        Ok("f9")
    } else if str_eq(by, "mcap") || str_eq(by, "market-cap") {
        Ok("f20")
    } else if str_eq(by, "flow") || str_eq(by, "main-inflow") {
        Ok("f62")
    } else if str_eq(by, "speed") {
        Ok("f22")
    } else {
        Err(CmdError::BadRankField)
    }
}

/// The K-line type code of a period name.
pub open spec fn period_code(p: Seq<char>) -> Option<Seq<char>> {
    if p == "day"@ || p == "d"@ || p == "101"@ {
        Some("101"@)
    } else if p == "week"@ || p == "w"@ || p == "102"@ {
        Some("102"@)
    } else if p == "month"@ || p == "m"@ || p == "103"@ {
        Some("103"@)
    } else if p == "5m"@ || p == "5"@ {
        Some("5"@)
    } else if p == "15m"@ || p == "15"@ {
        Some("15"@)
    } else if p == "30m"@ || p == "30"@ {
        Some("30"@)
    } else if p == "60m"@ || p == "60"@ {
        Some("60"@)
    } else {
        None
    }
}

/// The K-line type code (`klt`) of `--period`.
pub fn kline_klt(period: &str) -> (r: Result<&'static str, CmdError>)
    ensures
        match r {
            Ok(k) => period_code(period@) == Some(k@),
            Err(e) => period_code(period@) is None && e is BadPeriod,
        },
{
    if str_eq(period, "day") || str_eq(period, "d") || str_eq(period, "101") {
        Ok("101")
    } else if str_eq(period, "week") || str_eq(period, "w") || str_eq(period, "102") {
        Ok("102")
    } else if str_eq(period, "month") || str_eq(period, "m") || str_eq(period, "103") {
        Ok("103")
    } else if str_eq(period, "5m") || str_eq(period, "5") {
        Ok("5")
    } else if str_eq(period, "15m") || str_eq(period, "15") {
        Ok("15")
    } else if str_eq(period, "30m") || str_eq(period, "30") {
        Ok("30")
    } else if str_eq(period, "60m") || str_eq(period, "60") {
        Ok("60")
    } else {
        Err(CmdError::BadPeriod)
    }
}

/// The price-adjustment code of an adjustment name.
pub open spec fn adjust_code(fq: Seq<char>) -> Option<Seq<char>> {
    if fq == "qfq"@ {
        Some("1"@)
    } else if fq == "hfq"@ {
        Some("2"@)
    } else if fq == "none"@ {
        Some("0"@)
    } else {
        None
    }
}

/// The price-adjustment code (`fqt`) of `--fq`.
pub fn kline_fqt(fq: &str) -> (r: Result<&'static str, CmdError>)
    ensures
        match r {
            Ok(k) => adjust_code(fq@) == Some(k@),
            Err(e) => adjust_code(fq@) is None && e is BadAdjust,
        },
{
    if str_eq(fq, "qfq") {
        Ok("1")
    } else if str_eq(fq, "hfq") {
        Ok("2")
    } else if str_eq(fq, "none") {
        Ok("0")
    } else {
        Err(CmdError::BadAdjust)
    }
}

/// All A shares: Shanghai and Shenzhen main boards, ChiNext, STAR and Beijing.
pub const FS_A_STOCK: &'static str = "m:0+t:6,m:0+t:80,m:1+t:2,m:1+t:23,m:0+t:81+s:2048";
/// Industry sectors.
pub const FS_INDUSTRY: &'static str = "m:90+t:2+f:!50";
/// Concept sectors.
pub const FS_CONCEPT: &'static str = "m:90+t:3+f:!50";
/// Regional sectors.
pub const FS_REGION: &'static str = "m:90+t:1+f:!50";
/// The quote fields the quote tables show.
pub const QUOTE_FIELDS: &'static str = "f1,f2,f3,f4,f5,f6,f7,f8,f9,f10,f12,f13,f14,f15,f16,f17,f18,f20,f21,f23,f62,f100";

/// The sector list that a sector kind names.
pub open spec fn board_filter(kind: Seq<char>) -> Option<Seq<char>> {
    if kind == "industry"@ || kind == "hy"@ {
        Some(FS_INDUSTRY@)
    } else if kind == "concept"@ || kind == "gn"@ {
        Some(FS_CONCEPT@)
    } else if kind == "region"@ || kind == "dy"@ {
        Some(FS_REGION@)
    } else {
        None
    }
}

/// The list filter (`fs`) of a sector kind.
pub fn board_fs(kind: &str) -> (r: Result<&'static str, CmdError>)
    ensures
        match r {
            Ok(f) => board_filter(kind@) == Some(f@),
            Err(e) => board_filter(kind@) is None && e is BadBoardKind,
        },
{
    if str_eq(kind, "industry") || str_eq(kind, "hy") {
        Ok(FS_INDUSTRY)
    } else if str_eq(kind, "concept") || str_eq(kind, "gn") {
        Ok(FS_CONCEPT)
    } else if str_eq(kind, "region") || str_eq(kind, "dy") {
        Ok(FS_REGION)
    } else {
        Err(CmdError::BadBoardKind)
    }
}

/// The pool code and title of a pool kind.
pub open spec fn pool_of(kind: Seq<char>) -> Option<(Seq<char>, Seq<char>)> {
    if kind == "zt"@ {
        Some(("ZT"@, "涨停池"@))
    } else if kind == "dt"@ {
        Some(("DT"@, "跌停池"@))
    } else if kind == "zb"@ {
        Some(("ZB"@, "炸板池"@))
    } else {
        None
    }
}

/// The pool code (`ZT`, `DT`, `ZB`) and its title for a pool kind (`zt`, `dt`, `zb`).
pub fn pool_kind(kind: &str) -> (r: Result<(&'static str, &'static str), CmdError>)
    ensures
        match r {
            Ok((k, name)) => pool_of(kind@) == Some((k@, name@)),
            Err(e) => pool_of(kind@) is None && e is BadPoolKind,
        },
{
    if str_eq(kind, "zt") {
        Ok(("ZT", "涨停池"))
    } else if str_eq(kind, "dt") {
        Ok(("DT", "跌停池"))
    } else if str_eq(kind, "zb") {
        Ok(("ZB", "炸板池"))
    } else {
        Err(CmdError::BadPoolKind)
    }
}

/// How many days, today included, a pool is looked for when no date is given.
pub const POOL_LOOKBACK_DAYS: i64 = 12;

/// What `zt` does after fetching the pool of the day `back` days ago.
#[derive(PartialEq, Eq, Structural, Debug, Clone, Copy)]
pub enum LookbackStep {
    /// The pool has stocks: show it.
    Use,
    /// Look at the day this many days back next.
    Next(i64),
    /// No day in the look-back window had a pool.
    GiveUp,
}

/// The step after the pool of the day `back` days ago held `pool_len` stocks:
/// the most recent day with stocks is shown, earlier days are tried one by
/// one, and the search stops after `POOL_LOOKBACK_DAYS` days.
pub fn lookback_step(back: i64, pool_len: usize) -> (s: LookbackStep)
    requires
        0 <= back < POOL_LOOKBACK_DAYS,
    ensures
        s == (if pool_len > 0 {
            LookbackStep::Use
        } else if back + 1 < POOL_LOOKBACK_DAYS {
            LookbackStep::Next((back + 1) as i64)
        } else {
            LookbackStep::GiveUp
        }),
{
    if pool_len > 0 {
        LookbackStep::Use
    } else if back + 1 < POOL_LOOKBACK_DAYS {
        LookbackStep::Next(back + 1)
    } else {
        LookbackStep::GiveUp
    }
}

// ---------- laws of the option names ----------

/// K-line periods: a type code names itself; a minute period written with a
/// trailing `m` (`30m`) names the code written without it (`30`); and every
/// minute code (a code of at most two characters that names itself) can also
/// be written with the trailing `m`.
pub proof fn lemma_period_names(p: Seq<char>, n: Seq<char>)
    ensures
        period_code(p) is Some ==> period_code(period_code(p)->0) == period_code(p),
        n.len() > 0 && period_code(n + seq!['m']) is Some ==> period_code(n + seq!['m']) == Some(n),
        n.len() <= 2 && period_code(n) == Some(n) ==> period_code(n + seq!['m']) == Some(n),
{
    reveal_strlit("day");
    reveal_strlit("d");
    reveal_strlit("101");
    reveal_strlit("week");
    reveal_strlit("w");
    reveal_strlit("102");
    reveal_strlit("month");
    reveal_strlit("m");
    reveal_strlit("103");
    reveal_strlit("5m");
    reveal_strlit("5");
    reveal_strlit("15m");
    reveal_strlit("15");
    reveal_strlit("30m");
    reveal_strlit("30");
    reveal_strlit("60m");
    reveal_strlit("60");
    assert("day"@[0] != "101"@[0] && "d"@[0] != "101"@[0]);
    assert(period_code("101"@) == Some("101"@));
    assert("week"@[0] != "102"@[0] && "w"@[0] != "102"@[0]);
    assert(period_code("102"@) == Some("102"@));
    assert("month"@[0] != "103"@[0] && "m"@[0] != "103"@[0]);
    assert(period_code("103"@) == Some("103"@));
    assert("d"@[0] != "5"@[0] && "w"@[0] != "5"@[0] && "m"@[0] != "5"@[0]);
    assert(period_code("5"@) == Some("5"@));
    assert("15"@[1] != "5m"@[1]);
    assert(period_code("15"@) == Some("15"@));
    assert("30"@[0] != "15"@[0] && "30"@[0] != "5m"@[0]);
    assert(period_code("30"@) == Some("30"@));
    assert("60"@[0] != "30"@[0] && "60"@[0] != "15"@[0] && "60"@[0] != "5m"@[0]);
    assert(period_code("60"@) == Some("60"@));
    let nm = n + seq!['m'];
    if n.len() > 0 && period_code(nm) is Some {
        assert(nm.len() >= 2);
        assert(nm.drop_last() =~= n);
        if nm =~= "5m"@ {
            assert(n =~= "5"@);
        } else if nm =~= "15m"@ {
            assert(n =~= "15"@);
        } else if nm =~= "30m"@ {
            assert(n =~= "30"@);
        } else if nm =~= "60m"@ {
            assert(n =~= "60"@);
        } else {
            assert(nm.last() == 'm');
        }
    }
    if n.len() <= 2 && period_code(n) == Some(n) {
        if n =~= "5"@ {
            assert(nm =~= "5m"@);
        } else if n =~= "15"@ {
            assert(nm =~= "15m"@);
        } else if n =~= "30"@ {
            assert(nm =~= "30m"@);
        } else {
            assert(n =~= "60"@);
            assert(nm =~= "60m"@);
        }
    }
}

/// Ranking fields: the two names of a field (`change`/`pct`, `mcap`/`market-cap`,
/// `flow`/`main-inflow`) sort by the same quote field; the fields are change
/// `f3`, amount `f6`, turnover `f8`, volume `f5`, P/E `f9`, market cap `f20`,
/// main inflow `f62` and speed `f22`; no other name sorts.
pub proof fn lemma_rank_fields(by: Seq<char>)
    ensures
        rank_field(by) is Some <==> (by == "change"@ || by == "pct"@ || by == "amount"@ || by == "turnover"@
            || by == "volume"@ || by == "pe"@ || by == "mcap"@ || by == "market-cap"@ || by == "flow"@
            || by == "main-inflow"@ || by == "speed"@),
        rank_field("change"@) == rank_field("pct"@) && rank_field("mcap"@) == rank_field("market-cap"@)
            && rank_field("flow"@) == rank_field("main-inflow"@),
        rank_field("change"@) == Some(seq!['f', '3']) && rank_field("amount"@) == Some(seq!['f', '6'])
            && rank_field("turnover"@) == Some(seq!['f', '8']) && rank_field("volume"@) == Some(seq!['f', '5'])
            && rank_field("pe"@) == Some(seq!['f', '9']) && rank_field("mcap"@) == Some(seq!['f', '2', '0'])
            && rank_field("flow"@) == Some(seq!['f', '6', '2']) && rank_field("speed"@) == Some(seq!['f', '2', '2']),
{
    reveal_strlit("change");
    reveal_strlit("pct");
    reveal_strlit("amount");
    reveal_strlit("turnover");
    reveal_strlit("volume");
    reveal_strlit("pe");
    reveal_strlit("mcap");
    reveal_strlit("market-cap");
    reveal_strlit("flow");
    reveal_strlit("main-inflow");
    reveal_strlit("speed");
    reveal_strlit("f3");
    reveal_strlit("f6");
    reveal_strlit("f8");
    reveal_strlit("f5");
    reveal_strlit("f9");
    reveal_strlit("f20");
    reveal_strlit("f62");
    reveal_strlit("f22");
    assert("f3"@ =~= seq!['f', '3']);
    assert("f6"@ =~= seq!['f', '6']);
    assert("f8"@ =~= seq!['f', '8']);
    assert("f5"@ =~= seq!['f', '5']);
    assert("f9"@ =~= seq!['f', '9']);
    assert("f20"@ =~= seq!['f', '2', '0']);
    assert("f62"@ =~= seq!['f', '6', '2']);
    assert("f22"@ =~= seq!['f', '2', '2']);
    assert("amount"@[0] != "change"@[0] && "amount"@[0] != "pct"@[0]);
    assert("turnover"@[0] != "change"@[0] && "turnover"@[0] != "amount"@[0]);
    assert("volume"@[0] != "change"@[0] && "volume"@[0] != "amount"@[0] && "volume"@[0] != "turnover"@[0]
        && "volume"@[0] != "pct"@[0]);
    assert("pe"@[1] != "pct"@[1] && "pe"@.len() != "change"@.len() && "pe"@.len() != "amount"@.len()
        && "pe"@.len() != "turnover"@.len() && "pe"@.len() != "volume"@.len());
    assert("mcap"@[0] != "pct"@[0] && "mcap"@.len() != "change"@.len() && "mcap"@.len() != "amount"@.len()
        && "mcap"@.len() != "turnover"@.len() && "mcap"@.len() != "volume"@.len() && "mcap"@.len() != "pe"@.len());
    assert("market-cap"@.len() != "change"@.len() && "market-cap"@.len() != "pct"@.len()
        && "market-cap"@.len() != "amount"@.len() && "market-cap"@.len() != "turnover"@.len()
        && "market-cap"@.len() != "volume"@.len() && "market-cap"@.len() != "pe"@.len()
        && "market-cap"@.len() != "mcap"@.len());
    assert("flow"@[0] != "mcap"@[0] && "flow"@.len() != "change"@.len() && "flow"@[0] != "pct"@[0]
        && "flow"@.len() != "amount"@.len() && "flow"@.len() != "turnover"@.len()
        && "flow"@.len() != "volume"@.len() && "flow"@.len() != "pe"@.len() && "flow"@.len() != "market-cap"@.len());
    assert("main-inflow"@.len() != "change"@.len() && "main-inflow"@.len() != "pct"@.len()
        && "main-inflow"@.len() != "amount"@.len() && "main-inflow"@.len() != "turnover"@.len()
        && "main-inflow"@.len() != "volume"@.len() && "main-inflow"@.len() != "pe"@.len()
        && "main-inflow"@.len() != "mcap"@.len() && "main-inflow"@.len() != "market-cap"@.len()
        && "main-inflow"@.len() != "flow"@.len());
    assert("speed"@[0] != "pct"@[0] && "speed"@.len() != "change"@.len() && "speed"@.len() != "amount"@.len()
        && "speed"@.len() != "turnover"@.len() && "speed"@.len() != "volume"@.len() && "speed"@.len() != "pe"@.len()
        && "speed"@.len() != "mcap"@.len() && "speed"@.len() != "market-cap"@.len() && "speed"@.len() != "flow"@.len()
        && "speed"@.len() != "main-inflow"@.len());
}

/// Pool kinds: the pool code is the kind's name in capitals (`zt` → `ZT`),
/// only `zt`, `dt` and `zb` name a pool, and the three pools have different
/// titles.
pub proof fn lemma_pool_kinds(kind: Seq<char>)
    ensures
        pool_of(kind) is Some <==> (kind == "zt"@ || kind == "dt"@ || kind == "zb"@),
        pool_of(kind) is Some ==> (pool_of(kind)->0).0.len() == kind.len() == 2
            && forall|i: int| 0 <= i < 2 ==> (#[trigger] (pool_of(kind)->0).0[i]) as u32 + 32 == kind[i] as u32,
        pool_of("zt"@) is Some && pool_of("dt"@) is Some && pool_of("zb"@) is Some,
        (pool_of("zt"@)->0).1 != (pool_of("dt"@)->0).1 && (pool_of("dt"@)->0).1 != (pool_of("zb"@)->0).1
            && (pool_of("zt"@)->0).1 != (pool_of("zb"@)->0).1,
{
    reveal_strlit("zt");
    reveal_strlit("dt");
    reveal_strlit("zb");
    reveal_strlit("ZT");
    reveal_strlit("DT");
    reveal_strlit("ZB");
    reveal_strlit("涨停池");
    reveal_strlit("跌停池");
    reveal_strlit("炸板池");
    assert("zt"@[0] != "dt"@[0] && "zb"@[1] != "zt"@[1] && "zb"@[0] != "dt"@[0]);
    assert("涨停池"@[0] != "跌停池"@[0] && "跌停池"@[0] != "炸板池"@[0] && "涨停池"@[0] != "炸板池"@[0]);
}

/// Price adjustments: `qfq`, `hfq` and `none` each give their own code, no
/// adjustment being code `0`, and no other name gives one.
pub proof fn lemma_adjust_codes(fq: Seq<char>)
    ensures
        adjust_code(fq) is Some <==> (fq == "qfq"@ || fq == "hfq"@ || fq == "none"@),
        adjust_code("none"@) == Some(seq!['0']),
        adjust_code("qfq"@) is Some && adjust_code("hfq"@) is Some
            && adjust_code("qfq"@) != adjust_code("hfq"@) && adjust_code("qfq"@) != adjust_code("none"@)
            && adjust_code("hfq"@) != adjust_code("none"@),
{
    reveal_strlit("qfq");
    reveal_strlit("hfq");
    reveal_strlit("none");
    reveal_strlit("1");
    reveal_strlit("2");
    reveal_strlit("0");
    assert("qfq"@[0] != "hfq"@[0] && "none"@.len() != "qfq"@.len() && "none"@.len() != "hfq"@.len());
    assert("1"@[0] != "2"@[0] && "1"@[0] != "0"@[0] && "2"@[0] != "0"@[0]);
    assert("0"@ =~= seq!['0']);
}

/// Sector kinds: the long and the short name of a kind (`industry`/`hy`,
/// `concept`/`gn`, `region`/`dy`) select the same list, each kind its own
/// list, and no other name selects one.
pub proof fn lemma_board_kinds(kind: Seq<char>)
    ensures
        board_filter(kind) is Some <==> (kind == "industry"@ || kind == "hy"@ || kind == "concept"@
            || kind == "gn"@ || kind == "region"@ || kind == "dy"@),
        board_filter("industry"@) == Some(FS_INDUSTRY@) && board_filter("hy"@) == Some(FS_INDUSTRY@),
        board_filter("concept"@) == Some(FS_CONCEPT@) && board_filter("gn"@) == Some(FS_CONCEPT@),
        board_filter("region"@) == Some(FS_REGION@) && board_filter("dy"@) == Some(FS_REGION@),
        FS_INDUSTRY@ != FS_CONCEPT@ && FS_CONCEPT@ != FS_REGION@ && FS_INDUSTRY@ != FS_REGION@,
{
    reveal_strlit("industry");
    reveal_strlit("hy");
    reveal_strlit("concept");
    reveal_strlit("gn");
    reveal_strlit("region");
    reveal_strlit("dy");
    reveal_strlit("m:90+t:2+f:!50");
    reveal_strlit("m:90+t:3+f:!50");
    reveal_strlit("m:90+t:1+f:!50");
    assert("gn"@[0] != "hy"@[0] && "dy"@[0] != "hy"@[0] && "dy"@[0] != "gn"@[0]);
    assert("concept"@.len() != "industry"@.len() && "region"@.len() != "industry"@.len());
    assert("region"@[0] != "concept"@[0]);
    assert(FS_INDUSTRY@[7] != FS_CONCEPT@[7]);
    assert(FS_CONCEPT@[7] != FS_REGION@[7]);
    assert(FS_INDUSTRY@[7] != FS_REGION@[7]);
}

// ---------- watch-list group ----------

/// Index of the first group whose id or name is `g`.
pub open spec fn group_index(groups: Seq<(String, String)>, g: Seq<char>) -> Option<int>
    decreases groups.len(),
{
    if groups.len() == 0 {
        None
    } else {
        match group_index(groups.drop_last(), g) {
            Some(i) => Some(i),
            None => if groups.last().0@ == g || groups.last().1@ == g { Some(groups.len() - 1) } else { None },
        }
    }
}

/// The names of the groups, in order.
pub open spec fn group_names(groups: Seq<(String, String)>) -> Seq<Seq<char>> {
    Seq::new(groups.len(), |i: int| groups[i].1@)
}

/// The group to show: the first group when none is asked for, else the first
/// whose id or name is the one asked for.
pub fn select_group(groups: &Vec<(String, String)>, group: Option<&str>) -> (r: Result<(String, String), CmdError>)
    ensures
        match (group, r) {
            (None, Ok(sel)) => groups@.len() > 0 && sel == groups@[0],
            (None, Err(e)) => groups@.len() == 0 && e is NoGroup,
            (Some(g), Ok(sel)) => group_index(groups@, g@) matches Some(i) && sel == groups@[i],
            (Some(g), Err(e)) => group_index(groups@, g@) is None && (e matches CmdError::GroupNotFound(name, names)
                && name@ == g@ && views(names@) == group_names(groups@)),
        },
{
    match group {
        None => {
            if groups.len() == 0 {
                Err(CmdError::NoGroup)
            } else {
                Ok((groups[0].0.clone(), groups[0].1.clone()))
            }
        },
        Some(g) => {
            let mut i: usize = 0;
            while i < groups.len()
                invariant
                    i <= groups@.len(),
                    group == Some(g),
                    group_index(groups@.take(i as int), g@) is None,
                decreases groups@.len() - i,
            {
                proof {
                    assert(groups@.take(i + 1).drop_last() =~= groups@.take(i as int));
                }
                if str_eq(groups[i].0.as_str(), g) || str_eq(groups[i].1.as_str(), g) {
                    proof {
                        lemma_group_index_prefix(groups@, g@, i + 1);
                    }
                    return Ok((groups[i].0.clone(), groups[i].1.clone()));
                }
                i += 1;
            }
            assert(groups@.take(groups@.len() as int) =~= groups@);
            let mut names: Vec<String> = Vec::new();
            let mut k: usize = 0;
            while k < groups.len()
                invariant
                    k <= groups@.len(),
                    names@.len() == k,
                    views(names@) == group_names(groups@).take(k as int),
                decreases groups@.len() - k,
            {
                names.push(groups[k].1.clone());
                assert(views(names@) =~= group_names(groups@).take(k + 1));
                k += 1;
            }
            assert(group_names(groups@).take(groups@.len() as int) =~= group_names(groups@));
            Err(CmdError::GroupNotFound(g.to_owned(), names))
        },
    }
}

proof fn lemma_group_index_prefix(groups: Seq<(String, String)>, g: Seq<char>, k: int)
    requires
        0 <= k <= groups.len(),
        group_index(groups.take(k), g) is Some,
    ensures
        group_index(groups, g) == group_index(groups.take(k), g),
    decreases groups.len() - k,
{
    if k < groups.len() {
        assert(groups.drop_last().take(k) =~= groups.take(k));
        lemma_group_index_prefix(groups.drop_last(), g, k);
    } else {
        assert(groups.take(k) =~= groups);
    }
}

// ---------- billboard rows ----------

/// Indices of the first row of each code, in order.
pub open spec fn first_occurrences(codes: Seq<Seq<char>>) -> Seq<int>
    decreases codes.len(),
{
    if codes.len() == 0 {
        Seq::empty()
    } else {
        let r = first_occurrences(codes.drop_last());
        if codes.drop_last().contains(codes.last()) { r } else { r.push(codes.len() - 1) }
    }
}

pub open spec fn min_nat(a: int, b: int) -> int {
    if a < b { a } else { b }
}

pub open spec fn index_views(v: Seq<usize>) -> Seq<int> {
    Seq::new(v.len(), |i: int| v[i] as int)
}

fn contains_before(codes: &Vec<String>, i: usize) -> (b: bool)
    requires
        i < codes@.len(),
    ensures
        b == views(codes@).take(i as int).contains(views(codes@)[i as int]),
{
    let mut j: usize = 0;
    while j < i
        invariant
            j <= i < codes@.len(),
            forall|x: int| 0 <= x < j ==> views(codes@)[x] != views(codes@)[i as int],
        decreases i - j,
    {
        if str_eq(codes[j].as_str(), codes[i].as_str()) {
            assert(views(codes@).take(i as int)[j as int] == views(codes@)[i as int]);
            return true;
        }
        j += 1;
    }
    proof {
        let t = views(codes@).take(i as int);
        if t.contains(views(codes@)[i as int]) {
            let x = choose|x: int| 0 <= x < t.len() && t[x] == views(codes@)[i as int];
            assert(views(codes@)[x] != views(codes@)[i as int]);
        }
    }
    false
}

/// The rows to show of a billboard where a stock can appear once per listing
/// reason: the first row of each code, at most `num` of them, in order.
pub fn first_rows(codes: &Vec<String>, num: usize) -> (r: Vec<usize>)
    ensures
        index_views(r@) == first_occurrences(views(codes@)).take(
            min_nat(num as int, first_occurrences(views(codes@)).len() as int)),
{
    let ghost cv = views(codes@);
    let mut out: Vec<usize> = Vec::new();
    let mut i: usize = 0;
    while i < codes.len() && out.len() < num
        invariant
            i <= codes@.len(),
            cv == views(codes@),
            out@.len() <= num,
            index_views(out@) == first_occurrences(cv.take(i as int)),
        decreases codes@.len() - i,
    {
        proof {
            assert(cv.take(i + 1).drop_last() =~= cv.take(i as int));
            assert(cv.take(i + 1).last() == cv[i as int]);
        }
        if !contains_before(codes, i) {
            out.push(i);
            assert(index_views(out@) =~= first_occurrences(cv.take(i as int)).push(i as int));
        }
        i += 1;
    }
    proof {
        lemma_first_occurrences_prefix(cv, i as int);
        if i < codes@.len() {
            assert(out@.len() == num);
        } else {
            assert(cv.take(i as int) =~= cv);
        }
    }
    out
}

/// The first occurrences within a prefix are the first ones of the whole sequence.
proof fn lemma_first_occurrences_prefix(codes: Seq<Seq<char>>, k: int)
    requires
        0 <= k <= codes.len(),
    ensures
        first_occurrences(codes).take(first_occurrences(codes.take(k)).len() as int) == first_occurrences(codes.take(k)),
        first_occurrences(codes.take(k)).len() <= first_occurrences(codes).len(),
    decreases codes.len() - k,
{
    if k < codes.len() {
        assert(codes.drop_last().take(k) =~= codes.take(k));
        lemma_first_occurrences_prefix(codes.drop_last(), k);
        let a = first_occurrences(codes.drop_last());
        let b = first_occurrences(codes.take(k));
        if !codes.drop_last().contains(codes.last()) {
            assert(a.push(codes.len() - 1).take(b.len() as int) =~= a.take(b.len() as int));
        }
    } else {
        assert(codes.take(k) =~= codes);
    }
}

proof fn lemma_first_occ_order(codes: Seq<Seq<char>>)
    ensures
        forall|a: int| 0 <= a < first_occurrences(codes).len() ==>
            0 <= #[trigger] first_occurrences(codes)[a] < codes.len()
                && !codes.take(first_occurrences(codes)[a]).contains(codes[first_occurrences(codes)[a]]),
        forall|a: int, b: int| 0 <= a < b < first_occurrences(codes).len() ==>
            #[trigger] first_occurrences(codes)[a] < #[trigger] first_occurrences(codes)[b],
    decreases codes.len(),
{
    if codes.len() > 0 {
        let t = codes.drop_last();
        lemma_first_occ_order(t);
        let r = first_occurrences(t);
        let r2 = first_occurrences(codes);
        assert forall|a: int| 0 <= a < r2.len() implies
            0 <= #[trigger] r2[a] < codes.len() && !codes.take(r2[a]).contains(codes[r2[a]]) by {
            if a < r.len() {
                assert(r2[a] == r[a]);
                assert(codes.take(r[a]) =~= t.take(r[a]));
                assert(codes[r[a]] == t[r[a]]);
            } else {
                assert(codes.take(codes.len() - 1) =~= t);
            }
        }
        assert forall|a: int, b: int| 0 <= a < b < r2.len() implies #[trigger] r2[a] < #[trigger] r2[b] by {
            if b < r.len() {
                assert(r2[a] == r[a] && r2[b] == r[b]);
            } else {
                assert(r2[a] == r[a]);
            }
        }
    }
}

/// The codes of the rows kept.
pub open spec fn kept_codes(codes: Seq<Seq<char>>) -> Seq<Seq<char>> {
    Seq::new(first_occurrences(codes).len(), |a: int| codes[first_occurrences(codes)[a]])
}

proof fn lemma_first_occ_cover(codes: Seq<Seq<char>>)
    ensures
        forall|x: int| 0 <= x < codes.len() ==> kept_codes(codes).contains(#[trigger] codes[x]),
    decreases codes.len(),
{
    if codes.len() > 0 {
        let t = codes.drop_last();
        lemma_first_occ_cover(t);
        lemma_first_occ_order(t);
        let k1 = kept_codes(t);
        let k2 = kept_codes(codes);
        let r = first_occurrences(t);
        assert(k2.len() >= k1.len());
        assert forall|a: int| 0 <= a < k1.len() implies k2[a] == #[trigger] k1[a] by {
            assert(0 <= r[a] < t.len());
            assert(first_occurrences(codes)[a] == r[a]);
        }
        assert forall|x: int| 0 <= x < codes.len() implies k2.contains(#[trigger] codes[x]) by {
            if x < t.len() {
                assert(t[x] == codes[x]);
                assert(k1.contains(t[x]));
                let a = choose|a: int| 0 <= a < k1.len() && k1[a] == t[x];
                assert(k2[a] == k1[a]);
            } else if t.contains(codes.last()) {
                let y = choose|y: int| 0 <= y < t.len() && t[y] == codes.last();
                assert(k1.contains(t[y]));
                let a = choose|a: int| 0 <= a < k1.len() && k1[a] == t[y];
                assert(k2[a] == k1[a]);
            } else {
                assert(k2[k2.len() - 1] == codes[x]);
            }
        }
    }
}

/// The rows kept are in order and have distinct codes, each the first row
/// with its code, and every code of the billboard has its row among them.
pub proof fn lemma_first_occurrences(codes: Seq<Seq<char>>)
    ensures
        forall|a: int| 0 <= a < first_occurrences(codes).len() ==>
            0 <= #[trigger] first_occurrences(codes)[a] < codes.len()
                && !codes.take(first_occurrences(codes)[a]).contains(codes[first_occurrences(codes)[a]]),
        forall|a: int, b: int| 0 <= a < b < first_occurrences(codes).len() ==>
            #[trigger] first_occurrences(codes)[a] < #[trigger] first_occurrences(codes)[b]
                && codes[first_occurrences(codes)[a]] != codes[first_occurrences(codes)[b]],
        forall|x: int| 0 <= x < codes.len() ==> kept_codes(codes).contains(#[trigger] codes[x]),
{
    lemma_first_occ_order(codes);
    lemma_first_occ_cover(codes);
    let r = first_occurrences(codes);
    assert forall|a: int, b: int| 0 <= a < b < r.len() implies
        #[trigger] r[a] < #[trigger] r[b] && codes[r[a]] != codes[r[b]] by {
        if codes[r[a]] == codes[r[b]] {
            assert(codes.take(r[b])[r[a]] == codes[r[a]]);
        }
    }
}

// ---------- small text choices ----------

/// The first member among `keys` that is a non-empty string; `-` when none is.
pub open spec fn first_nonempty(v: Json, keys: Seq<Seq<char>>) -> Seq<char>
    decreases keys.len(),
{
    if keys.len() == 0 {
        seq!['-']
    } else {
        match json_get(v, keys[0]) {
            Some(Json::Str(s)) => if s@.len() > 0 { s@ } else { first_nonempty(v, keys.drop_first()) },
            _ => first_nonempty(v, keys.drop_first()),
        }
    }
}

/// The first of the members `keys` of `v` that is a non-empty string, or `-`.
pub fn first_str(v: &Json, keys: &[&str]) -> (s: String)
    ensures
        s@ == first_nonempty(*v, crate::json::key_views(keys@)),
{
    let ghost ks = crate::json::key_views(keys@);
    let mut i: usize = 0;
    assert(ks.skip(0) =~= ks);
    while i < keys.len()
        invariant
            i <= keys@.len(),
            ks == crate::json::key_views(keys@),
            first_nonempty(*v, ks) == first_nonempty(*v, ks.skip(i as int)),
        decreases keys@.len() - i,
    {
        proof {
            assert(ks.skip(i as int)[0] == keys@[i as int]@);
            assert(ks.skip(i as int).drop_first() =~= ks.skip(i + 1));
        }
        match v.get(keys[i]) {
            Some(Json::Str(s)) => {
                if chars_of(s.as_str()).len() > 0 {
                    return s.clone();
                }
            },
            _ => {},
        }
        i += 1;
    }
    let mut s = String::new();
    push_char(&mut s, '-');
    s
}

/// A company-profile value worth a line: not the `-` of a missing member,
/// not empty, and not the text `null`.
pub fn is_shown_value(v: &str) -> (b: bool)
    ensures
        b == (v@ != "-"@ && v@.len() > 0 && v@ != "null"@),
{
    !str_eq(v, "-") && chars_of(v).len() > 0 && !str_eq(v, "null")
}

/// At most the first `n` characters of `s`.
pub fn first_chars(s: &str, n: usize) -> (r: String)
    ensures
        r@ == s@.take(min_nat(n as int, s@.len() as int)),
{
    let cs = chars_of(s);
    let k = if cs.len() < n { cs.len() } else { n };
    let part = slice_of(&cs, 0, k);
    string_from_chars(part.as_slice())
}

/// `prefix`, `value`, `suffix` as one string.
fn wrap(prefix: &str, value: &str, suffix: &str) -> (r: String)
    ensures
        r@ == prefix@ + value@ + suffix@,
{
    let mut r = prefix.to_owned();
    push_str(&mut r, value);
    push_str(&mut r, suffix);
    r
}

/// The billboard filter for one trading day: `(TRADE_DATE='day')`.
pub fn trade_date_filter(day: &str) -> (r: String)
    ensures
        r@ == "(TRADE_DATE='"@ + day@ + "')"@,
{
    wrap("(TRADE_DATE='", day, "')")
}

/// The F10 filter for one security: `(SECUCODE="code")`.
pub fn secucode_filter(secucode: &str) -> (r: String)
    ensures
        r@ == "(SECUCODE=\""@ + secucode@ + "\")"@,
{
    wrap("(SECUCODE=\"", secucode, "\")")
}

/// The shareholder filter for one code: `(SECURITY_CODE="code")`.
pub fn security_code_filter(code: &str) -> (r: String)
    ensures
        r@ == "(SECURITY_CODE=\""@ + code@ + "\")"@,
{
    wrap("(SECURITY_CODE=\"", code, "\")")
}

// ---------- the login cookie ----------

/// A cookie as kept: trimmed, and only when something is left.
pub open spec fn kept_cookie(s: Seq<char>) -> Option<Seq<char>> {
    if trim(s).len() > 0 { Some(trim(s)) } else { None }
}

/// The cookie `s` trimmed, when not empty.
pub fn normalize_cookie(s: &str) -> (r: Option<String>)
    ensures
        match r {
            Some(c) => kept_cookie(s@) == Some(c@),
            None => kept_cookie(s@) is None,
        },
{
    let t = trim_str(s);
    if chars_of(t.as_str()).len() > 0 { Some(t) } else { None }
}

/// The login cookie in effect: the environment's `EM_COOKIE` when it holds
/// one, else the saved file's; each trimmed, an empty one not counting.
pub fn pick_cookie(env: Option<&str>, file: Option<&str>) -> (r: Option<String>)
    ensures
        ({
            let from_env = match env { Some(e) => kept_cookie(e@), None => None };
            let from_file = match file { Some(f) => kept_cookie(f@), None => None };
            match r {
                Some(c) => (from_env == Some(c@)) || (from_env is None && from_file == Some(c@)),
                None => from_env is None && from_file is None,
            }
        }),
{
    match env {
        Some(e) => match normalize_cookie(e) {
            Some(c) => {
                return Some(c);
            },
            None => {},
        },
        None => {},
    }
    match file {
        Some(f) => normalize_cookie(f),
        None => None,
    }
}

/// The cookie to save: trimmed, refused when empty.
pub fn cookie_to_save(cookie: &str) -> (r: Result<String, CmdError>)
    ensures
        match r {
            Ok(c) => kept_cookie(cookie@) == Some(c@),
            Err(e) => kept_cookie(cookie@) is None && e is EmptyCookie,
        },
{
    match normalize_cookie(cookie) {
        Some(c) => Ok(c),
        None => Err(CmdError::EmptyCookie),
    }
}

/// What `config set-cookie` saves is read back unchanged: the saved text is
/// already trimmed and non-empty, so keeping it again (as loading the file
/// does when no `EM_COOKIE` is set) gives the same cookie.
pub proof fn lemma_saved_cookie_reads_back(cookie: Seq<char>)
    requires
        kept_cookie(cookie) is Some,
    ensures
        kept_cookie(kept_cookie(cookie)->0) == kept_cookie(cookie),
{
    crate::text::lemma_trim_idempotent(cookie);
}

/// The cookie the watch list needs, or the instructions to configure one.
pub fn require_cookie(loaded: Option<String>) -> (r: Result<String, CmdError>)
    ensures
        match r {
            Ok(c) => loaded == Some(c),
            Err(e) => loaded is None && e is NoCookie,
        },
{
    match loaded {
        Some(c) => Ok(c),
        None => Err(CmdError::NoCookie),
    }
}

/// `base` joined with the relative path `comp` (`PathBuf::join` on Unix): a
/// `/` between them unless `base` is empty or already ends with one.
pub open spec fn path_join(base: Seq<char>, comp: Seq<char>) -> Seq<char> {
    if base.len() == 0 {
        comp
    } else if base.last() == '/' {
        base + comp
    } else {
        base + seq!['/'] + comp
    }
}

fn join_path(base: &str, comp: &str) -> (r: String)
    ensures
        r@ == path_join(base@, comp@),
{
    let cs = chars_of(base);
    if cs.len() == 0 {
        return comp.to_owned();
    }
    let mut r = base.to_owned();
    if cs[cs.len() - 1] != '/' {
        push_char(&mut r, '/');
    }
    push_str(&mut r, comp);
    r
}

/// Where the login cookie is saved, below the home directory `home`:
/// `~/.config/eastmoney-cli/cookie.txt`.
pub fn cookie_path(home: &str) -> (p: String)
    ensures
        p@ == path_join(path_join(path_join(home@, ".config"@), "eastmoney-cli"@), "cookie.txt"@),
{
    let a = join_path(home, ".config");
    let b = join_path(a.as_str(), "eastmoney-cli");
    join_path(b.as_str(), "cookie.txt")
}

/// How a cookie is shown: a long one (over 60 bytes) as its first 30 bytes,
/// `...`, its last 10 bytes and its length; a short one whole.
pub open spec fn masked(c: Seq<char>) -> Seq<char> {
    let n = utf8_len(c);
    if n > 60 {
        c.take(byte_index(c, 30)) + "..."@ + c.skip(byte_index(c, n - 10)) + " ("@
            + crate::text::decimal(n) + " 字符)"@
    } else {
        c
    }
}

/// The cookie as `config show` prints it.
pub fn mask_cookie(c: &str) -> (r: String)
    requires
        utf8_len(c@) <= usize::MAX,
        utf8_len(c@) > 60 ==> has_byte_boundary(c@, 30) && has_byte_boundary(c@, utf8_len(c@) - 10),
    ensures
        r@ == masked(c@),
{
    let cs = chars_of(c);
    match utf8_len_upto(cs.as_slice(), 60) {
        Some(_) => c.to_owned(),
        None => {
            let n = match utf8_len_upto(cs.as_slice(), usize::MAX) {
                Some(n) => n,
                None => {
                    // no string is that long
                    return c.to_owned();
                },
            };
            let head = byte_boundary(&cs, 30);
            let tail = byte_boundary(&cs, n - 10);
            proof {
                if tail < head {
                    crate::text::lemma_utf8_len_take_mono(cs@, tail as int, head as int);
                }
            }
            let h = slice_of(&cs, 0, head);
            let t = slice_of(&cs, tail, cs.len());
            let mut r = string_from_chars(h.as_slice());
            push_str(&mut r, "...");
            let ts = string_from_chars(t.as_slice());
            push_str(&mut r, ts.as_str());
            push_str(&mut r, " (");
            let ns = crate::text::decimal_string(n as u64);
            push_str(&mut r, ns.as_str());
            push_str(&mut r, " 字符)");
            assert(h@ =~= cs@.take(head as int));
            assert(t@ =~= cs@.skip(tail as int));
            r
        },
    }
}

// ---------- rows of the quote services ----------

/// The comma-separated fields of a data row, when there are at least `min` of them.
pub fn row_fields(line: &str, min: usize) -> (r: Option<Vec<String>>)
    ensures
        match r {
            Some(fs) => crate::text::split_on(line@, ',').len() >= min
                && views(fs@) == crate::text::split_on(line@, ','),
            None => crate::text::split_on(line@, ',').len() < min,
        },
{
    let fs = crate::text::split_str(line, ',');
    assert(views(fs@) =~= crate::text::split_on(line@, ','));
    if fs.len() < min { None } else { Some(fs) }
}

/// How many entries the `pool` array of pool data holds (none when absent).
pub fn pool_size(data: &Json) -> (n: usize)
    ensures
        n == (match crate::json::json_array(json_get(*data, "pool"@)) {
            Some(a) => a.len(),
            None => 0,
        }),
{
    match data.get("pool") {
        Some(Json::Array(a)) => a.len(),
        _ => 0,
    }
}

/// Index of the first item whose member `key`, as display text, is `value`.
pub fn find_by_field(items: &Vec<Json>, key: &str, value: &str) -> (r: Option<usize>)
    ensures
        match r {
            Some(i) => i < items@.len() && spec_str_at(items@[i as int], key@) == value@
                && forall|j: int| 0 <= j < i ==> spec_str_at(#[trigger] items@[j], key@) != value@,
            None => forall|j: int| 0 <= j < items@.len() ==> spec_str_at(#[trigger] items@[j], key@) != value@,
        },
{
    let mut i: usize = 0;
    while i < items.len()
        invariant
            i <= items@.len(),
            forall|j: int| 0 <= j < i ==> spec_str_at(#[trigger] items@[j], key@) != value@,
        decreases items@.len() - i,
    {
        let t = crate::json::str_at(&items[i], key);
        if str_eq(t.as_str(), value) {
            return Some(i);
        }
        i += 1;
    }
    None
}

/// The list filter of a sector's member stocks: `b:` and the sector code.
pub fn members_filter(sector: &str) -> (r: String)
    ensures
        r@ == "b:"@ + sector@,
{
    let mut r = "b:".to_owned();
    push_str(&mut r, sector);
    r
}

/// The page of an announcement.
pub fn notice_url(code: &str, art_code: &str) -> (r: String)
    ensures
        r@ == "https://data.eastmoney.com/notices/detail/"@ + code@ + "/"@ + art_code@ + ".html"@,
{
    let mut r = "https://data.eastmoney.com/notices/detail/".to_owned();
    push_str(&mut r, code);
    push_str(&mut r, "/");
    push_str(&mut r, art_code);
    push_str(&mut r, ".html");
    r
}

} // verus!
