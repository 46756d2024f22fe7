use eastmoney::cmd::{
    board_fs, cookie_path, is_shown_value, lookback_step, LookbackStep, POOL_LOOKBACK_DAYS, cookie_to_save, find_by_field, first_chars, first_rows, first_str,
    kline_fqt, kline_klt, mask_cookie, members_filter, normalize_cookie, notice_url, pick_cookie,
    pool_kind, pool_size, rank_fid, require_cookie, row_fields, secucode_filter,
    security_code_filter, select_group, trade_date_filter, CmdError, FS_A_STOCK, FS_CONCEPT,
    FS_INDUSTRY, FS_REGION, QUOTE_FIELDS,
};
use eastmoney::json::Json;

fn s(x: &str) -> Json {
    Json::Str(x.to_string())
}

fn obj(es: Vec<(&str, Json)>) -> Json {
    Json::Object(es.into_iter().map(|(k, v)| (k.to_string(), v)).collect())
}

fn strings(v: &[&str]) -> Vec<String> {
    v.iter().map(|x| x.to_string()).collect()
}

#[test]
fn rank_fields_by_name() {
    let cases = [
        ("change", "f3"), ("pct", "f3"), ("amount", "f6"), ("turnover", "f8"), ("volume", "f5"),
        ("pe", "f9"), ("mcap", "f20"), ("market-cap", "f20"), ("flow", "f62"), ("main-inflow", "f62"),
        ("speed", "f22"),
    ];
    for (by, f) in cases {
        assert_eq!(rank_fid(by).unwrap(), f);
    }
    let e = rank_fid("price").unwrap_err();
    assert!(matches!(e, CmdError::BadRankField));
    assert_eq!(e.message(), "--by 仅支持 change/amount/turnover/volume/pe/mcap/flow/speed");
}

#[test]
fn kline_periods_and_adjustments() {
    for (p, k) in [("day", "101"), ("d", "101"), ("101", "101"), ("week", "102"), ("w", "102"), ("month", "103"),
        ("m", "103"), ("5m", "5"), ("5", "5"), ("15m", "15"), ("30", "30"), ("60m", "60")] {
        assert_eq!(kline_klt(p).unwrap(), k, "period {}", p);
    }
    assert_eq!(kline_klt("year").unwrap_err().message(), "period 仅支持 day/week/month/5m/15m/30m/60m");
    assert_eq!(kline_fqt("qfq").unwrap(), "1");
    assert_eq!(kline_fqt("hfq").unwrap(), "2");
    assert_eq!(kline_fqt("none").unwrap(), "0");
    assert_eq!(kline_fqt("QFQ").unwrap_err().message(), "fq 仅支持 qfq/hfq/none");
}

#[test]
fn sector_and_pool_kinds() {
    assert_eq!(board_fs("industry").unwrap(), FS_INDUSTRY);
    assert_eq!(board_fs("hy").unwrap(), FS_INDUSTRY);
    assert_eq!(board_fs("gn").unwrap(), FS_CONCEPT);
    assert_eq!(board_fs("region").unwrap(), FS_REGION);
    assert_eq!(FS_INDUSTRY, "m:90+t:2+f:!50");
    assert_eq!(FS_A_STOCK, "m:0+t:6,m:0+t:80,m:1+t:2,m:1+t:23,m:0+t:81+s:2048");
    assert!(QUOTE_FIELDS.starts_with("f1,f2,f3"));
    assert_eq!(board_fs("stock").unwrap_err().message(), "板块类型仅支持 industry/concept/region");
    assert_eq!(pool_kind("zt").unwrap(), ("ZT", "涨停池"));
    assert_eq!(pool_kind("dt").unwrap(), ("DT", "跌停池"));
    assert_eq!(pool_kind("zb").unwrap(), ("ZB", "炸板池"));
    assert_eq!(pool_kind("ZT").unwrap_err().message(), "类型仅支持 zt(涨停)/dt(跌停)/zb(炸板)");
}

fn groups() -> Vec<(String, String)> {
    vec![
        ("1".to_string(), "自选股".to_string()),
        ("7".to_string(), "科技".to_string()),
        ("9".to_string(), "1".to_string()),
    ]
}

#[test]
fn watch_group_selection() {
    assert_eq!(select_group(&groups(), None).unwrap(), ("1".to_string(), "自选股".to_string()));
    assert_eq!(select_group(&groups(), Some("科技")).unwrap(), ("7".to_string(), "科技".to_string()));
    assert_eq!(select_group(&groups(), Some("7")).unwrap(), ("7".to_string(), "科技".to_string()));
    // an id matches before a later group's name
    assert_eq!(select_group(&groups(), Some("1")).unwrap(), ("1".to_string(), "自选股".to_string()));
    let e = select_group(&groups(), Some("港股")).unwrap_err();
    assert!(matches!(&e, CmdError::GroupNotFound(g, _) if g == "港股"));
    assert_eq!(e.message(), "未找到分组 \"港股\"。可用分组: 自选股, 科技, 1");
    let e = select_group(&Vec::new(), None).unwrap_err();
    assert!(matches!(e, CmdError::NoGroup));
    assert_eq!(e.message(), "没有自选分组");
}

#[test]
fn billboard_keeps_first_row_per_code() {
    let codes = strings(&["600000", "300339", "600000", "000001", "300339", "688981"]);
    assert_eq!(first_rows(&codes, 10), vec![0, 1, 3, 5]);
    assert_eq!(first_rows(&codes, 2), vec![0, 1]);
    assert_eq!(first_rows(&codes, 0), Vec::<usize>::new());
    assert_eq!(first_rows(&Vec::new(), 3), Vec::<usize>::new());
}

#[test]
fn billboard_rows_are_distinct_and_in_order() {
    let codes = strings(&["a", "b", "a", "c", "b", "d", "c", "e"]);
    for num in 0..10 {
        let rows = first_rows(&codes, num);
        assert!(rows.len() <= num);
        for w in rows.windows(2) {
            assert!(w[0] < w[1]);
        }
        let kept: Vec<&String> = rows.iter().map(|&i| &codes[i]).collect();
        for (i, a) in kept.iter().enumerate() {
            assert!(!kept[..i].contains(a));
        }
        for &i in &rows {
            assert!(!codes[..i].contains(&codes[i]));
        }
    }
}

#[test]
fn first_nonempty_string_member() {
    let p = obj(vec![("post_publish_time", s("")), ("post_display_time", s("2024-01-02 10:00")), ("post_last_time", s("x"))]);
    let keys = ["post_publish_time", "post_display_time", "post_last_time"];
    assert_eq!(first_str(&p, &keys), "2024-01-02 10:00");
    assert_eq!(first_str(&obj(vec![("post_publish_time", Json::Number("1".to_string()))]), &keys), "-");
    assert_eq!(first_str(&Json::Null, &keys), "-");
}

#[test]
fn leading_characters() {
    assert_eq!(first_chars("2024-01-02 00:00:00", 10), "2024-01-02");
    assert_eq!(first_chars("短", 10), "短");
    assert_eq!(first_chars("润和软件", 2), "润和");
    assert_eq!(first_chars("abc", 0), "");
}

#[test]
fn report_filters() {
    assert_eq!(trade_date_filter("2024-01-02"), "(TRADE_DATE='2024-01-02')");
    assert_eq!(secucode_filter("300339.SZ"), "(SECUCODE=\"300339.SZ\")");
    assert_eq!(security_code_filter("300339"), "(SECURITY_CODE=\"300339\")");
    assert_eq!(members_filter("BK1031"), "b:BK1031");
    assert_eq!(notice_url("300339", "AN2024"), "https://data.eastmoney.com/notices/detail/300339/AN2024.html");
}

#[test]
fn cookies_are_trimmed_and_env_comes_first() {
    assert_eq!(normalize_cookie("  a=1; b=2 \n").as_deref(), Some("a=1; b=2"));
    assert_eq!(normalize_cookie(" \n "), None);
    assert_eq!(pick_cookie(Some(" env=1 "), Some("file=1")).as_deref(), Some("env=1"));
    assert_eq!(pick_cookie(Some("   "), Some(" file=1\n")).as_deref(), Some("file=1"));
    assert_eq!(pick_cookie(None, Some("file=1")).as_deref(), Some("file=1"));
    assert_eq!(pick_cookie(None, Some("  ")), None);
    assert_eq!(pick_cookie(None, None), None);
}

#[test]
fn saved_cookie_reads_back() {
    for c in ["  a=1; b=2 \n", "x", "\tct=abc\r\n"] {
        let saved = cookie_to_save(c).unwrap();
        assert_eq!(pick_cookie(None, Some(&saved)), Some(saved.clone()));
    }
    let e = cookie_to_save(" \n").unwrap_err();
    assert!(matches!(e, CmdError::EmptyCookie));
    assert_eq!(e.message(), "Cookie 为空");
}

#[test]
fn cookie_is_required_for_the_watch_list() {
    assert_eq!(require_cookie(Some("a=1".to_string())).unwrap(), "a=1");
    let e = require_cookie(None).unwrap_err();
    assert!(matches!(e, CmdError::NoCookie));
    assert!(e.message().starts_with("未配置 Cookie。自选股需要登录态"));
    assert!(e.message().ends_with("或设置环境变量 EM_COOKIE"));
}

#[test]
fn cookie_file_location() {
    assert_eq!(cookie_path("/home/u"), "/home/u/.config/eastmoney-cli/cookie.txt");
    assert_eq!(cookie_path("/root/"), "/root/.config/eastmoney-cli/cookie.txt");
    assert_eq!(cookie_path(""), ".config/eastmoney-cli/cookie.txt");
}

#[test]
fn long_cookies_are_masked() {
    assert_eq!(mask_cookie("short=1"), "short=1");
    let c: String = (0..70).map(|i| char::from(b'a' + (i % 26) as u8)).collect();
    let expected = format!("{}...{} (70 字符)", &c[..30], &c[60..]);
    assert_eq!(mask_cookie(&c), expected);
    let sixty = "x".repeat(60);
    assert_eq!(mask_cookie(&sixty), sixty);
}

#[test]
fn data_rows_split_into_fields() {
    assert_eq!(row_fields("2024-01-02,1,2,3", 4), Some(strings(&["2024-01-02", "1", "2", "3"])));
    assert_eq!(row_fields("2024-01-02,1,2", 4), None);
    assert_eq!(row_fields("a,b,c,d,e", 4).map(|f| f.len()), Some(5));
    assert_eq!(row_fields("", 1), Some(strings(&[""])));
}

#[test]
fn pool_sizes() {
    assert_eq!(pool_size(&obj(vec![("pool", Json::Array(vec![Json::Null, Json::Null]))])), 2);
    assert_eq!(pool_size(&obj(vec![("pool", Json::Null)])), 0);
    assert_eq!(pool_size(&obj(vec![])), 0);
}

#[test]
fn finding_rows_by_field() {
    let items = vec![
        obj(vec![("f12", s("000001")), ("f6", Json::Number("1.5e11".to_string()))]),
        obj(vec![("f12", Json::Number("399001".to_string()))]),
        obj(vec![("f12", s("000001"))]),
    ];
    assert_eq!(find_by_field(&items, "f12", "000001"), Some(0));
    assert_eq!(find_by_field(&items, "f12", "399001"), Some(1));
    assert_eq!(find_by_field(&items, "f12", "399006"), None);
    assert_eq!(find_by_field(&items, "f99", "-"), Some(0));
}

#[test]
fn profile_values_worth_showing() {
    assert!(is_shown_value("润和软件"));
    assert!(is_shown_value("0"));
    assert!(!is_shown_value("-"));
    assert!(!is_shown_value(""));
    assert!(!is_shown_value("null"));
    assert!(is_shown_value("NULL"));
}

#[test]
fn pool_lookback_stops_at_the_first_day_with_stocks() {
    assert_eq!(POOL_LOOKBACK_DAYS, 12);
    assert_eq!(lookback_step(0, 3), LookbackStep::Use);
    assert_eq!(lookback_step(0, 0), LookbackStep::Next(1));
    assert_eq!(lookback_step(10, 0), LookbackStep::Next(11));
    assert_eq!(lookback_step(11, 0), LookbackStep::GiveUp);
    assert_eq!(lookback_step(11, 1), LookbackStep::Use);
    let mut back = 0;
    let mut days = Vec::new();
    loop {
        days.push(back);
        match lookback_step(back, 0) {
            LookbackStep::Next(b) => back = b,
            LookbackStep::GiveUp => break,
            LookbackStep::Use => unreachable!(),
        }
    }
    assert_eq!(days, (0..12).collect::<Vec<i64>>());
}

#[test]
fn command_error_messages() {
    assert_eq!(CmdError::NoSearchResult("润和".to_string()).message(), "未搜到: 润和");
    assert_eq!(CmdError::NoRankCode.message(), "该证券不支持人气排名（仅A股）");
    assert_eq!(CmdError::NoPoolData.message(), "近 12 天无数据");
    assert_eq!(CmdError::GroupNotFound("x".to_string(), Vec::new()).message(), "未找到分组 \"x\"。可用分组: ");
}
