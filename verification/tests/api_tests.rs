use eastmoney::api::{
    announcements_from, datacenter_check, emappdata_ok, fenbu_counts, fenbu_from, fund_flow_from,
    global_id_from, guba_posts_from, host_step, hot_current_from, hot_history_from, hot_rank_from, join_secids,
    jsonp_payload, kline_from, list_from, myfavor_check, news_from, pacing_wait, quote_batches, quotes_from,
    report_request, report_rows_from, stock_from, suggest_list_from, topic_pool_from,
    topic_pool_request, trends_from, watch_groups_from, watch_stocks_from, ApiError, HostStep, REQUEST_GAP_NANOS,
};
use eastmoney::json::{str_at, Json};

fn s(x: &str) -> Json {
    Json::Str(x.to_string())
}

fn n(x: &str) -> Json {
    Json::Number(x.to_string())
}

fn obj(es: Vec<(&str, Json)>) -> Json {
    Json::Object(es.into_iter().map(|(k, v)| (k.to_string(), v)).collect())
}

fn arr(v: Vec<Json>) -> Json {
    Json::Array(v)
}

fn data(d: Json) -> Json {
    obj(vec![("data", d)])
}

fn codes(items: &[Json], key: &str) -> Vec<String> {
    items.iter().map(|it| str_at(it, key)).collect()
}

#[test]
fn quotes_from_an_array() {
    let v = data(obj(vec![("total", n("2")), ("diff", arr(vec![obj(vec![("f12", s("300339"))]), obj(vec![("f12", s("600570"))])]))]));
    let items = quotes_from(v).unwrap();
    assert_eq!(codes(&items, "f12"), vec!["300339", "600570"]);
}

#[test]
fn quotes_from_an_object_keep_member_order() {
    let v = data(obj(vec![(
        "diff",
        obj(vec![("0", obj(vec![("f12", s("000001"))])), ("1", obj(vec![("f12", s("399001"))])), ("2", obj(vec![("f12", n("300"))]))]),
    )]));
    let items = quotes_from(v).unwrap();
    assert_eq!(codes(&items, "f12"), vec!["000001", "399001", "300"]);
}

#[test]
fn quotes_from_nothing_is_an_error() {
    for v in [data(Json::Null), obj(vec![]), data(obj(vec![("diff", s("x"))]))] {
        let e = quotes_from(v).unwrap_err();
        assert!(matches!(e, ApiError::QuotesEmpty));
        assert_eq!(e.message(), "行情返回为空");
    }
}

#[test]
fn stock_snapshot() {
    let d = stock_from(data(obj(vec![("f43", n("12.5"))])), "0.300339").unwrap();
    assert_eq!(str_at(&d, "f43"), "12.5");
    let e = stock_from(data(Json::Null), "0.300339").unwrap_err();
    assert!(matches!(&e, ApiError::QuoteMissing(id) if id == "0.300339"));
    assert_eq!(e.message(), "未找到行情数据: 0.300339");
    assert!(stock_from(obj(vec![("rc", n("0"))]), "1.600570").is_err());
}

#[test]
fn ranking_list_rows() {
    let rows = list_from(data(obj(vec![("diff", arr(vec![obj(vec![("f12", s("a"))])]))]))).unwrap();
    assert_eq!(rows.len(), 1);
    let e = list_from(data(obj(vec![("diff", obj(vec![]))]))).unwrap_err();
    assert!(matches!(e, ApiError::ListEmpty));
    assert_eq!(e.message(), "列表返回为空");
}

#[test]
fn kline_rows_and_name() {
    let v = data(obj(vec![
        ("name", s("润和软件")),
        ("klines", arr(vec![s("2024-01-02,1,2,3,4,5,6,7,8,9,10"), n("5"), s("2024-01-03,1,2,3,4,5,6,7,8,9,10")])),
    ]));
    let (name, rows) = kline_from(v).unwrap();
    assert_eq!(name, "润和软件");
    assert_eq!(rows, vec!["2024-01-02,1,2,3,4,5,6,7,8,9,10", "2024-01-03,1,2,3,4,5,6,7,8,9,10"]);
    let (name, rows) = kline_from(data(obj(vec![("klines", arr(vec![s("x")]))]))).unwrap();
    assert_eq!(name, "");
    assert_eq!(rows, vec!["x"]);
    let e = kline_from(data(obj(vec![("name", s("x")), ("klines", arr(vec![]))]))).unwrap_err();
    assert!(matches!(e, ApiError::KlineEmpty));
    assert_eq!(e.message(), "K线为空（push2his 集群可能被限流，请稍后重试）");
}

#[test]
fn intraday_rows() {
    let (d, rows) = trends_from(data(obj(vec![("preClose", n("10.0")), ("trends", arr(vec![s("09:30,10.1,5,10.05")]))]))).unwrap();
    assert_eq!(str_at(&d, "preClose"), "10.0");
    assert_eq!(rows, vec!["09:30,10.1,5,10.05"]);
    let (_, rows) = trends_from(data(obj(vec![("code", s("300339"))]))).unwrap();
    assert!(rows.is_empty());
    let e = trends_from(data(Json::Null)).unwrap_err();
    assert_eq!(e.message(), "分时为空");
}

#[test]
fn fund_flow_rows() {
    let rows = fund_flow_from(data(obj(vec![("klines", arr(vec![s("2024-01-02,1,2,3,4,5")]))]))).unwrap();
    assert_eq!(rows, vec!["2024-01-02,1,2,3,4,5"]);
    assert!(fund_flow_from(data(obj(vec![("klines", arr(vec![]))]))).unwrap().is_empty());
    let e = fund_flow_from(data(Json::Null)).unwrap_err();
    assert!(matches!(e, ApiError::FlowEmpty));
    assert_eq!(e.message(), "资金流为空");
}

#[test]
fn distribution_is_sorted_by_bucket() {
    let v = data(obj(vec![(
        "fenbu",
        arr(vec![
            obj(vec![("3", n("10")), ("-1", n("5")), ("x", n("1"))]),
            s("skip"),
            obj(vec![("0", n("7")), ("-11", n("2")), ("2", s("9")), ("3", n("4"))]),
        ]),
    )]));
    let f = fenbu_from(v).unwrap();
    assert_eq!(f, vec![(-11, 2), (-1, 5), (0, 7), (3, 4), (3, 10)]);
    let e = fenbu_from(data(Json::Null)).unwrap_err();
    assert_eq!(e.message(), "涨跌分布为空");
}

#[test]
fn rise_fall_flat_counts() {
    assert_eq!(fenbu_counts(&vec![(-11, 2), (-1, 5), (0, 7), (3, 4), (3, 10)]), Some((14, 7, 7)));
    assert_eq!(fenbu_counts(&vec![]), Some((0, 0, 0)));
    assert_eq!(fenbu_counts(&vec![(1, i64::MAX), (2, 1)]), None);
    assert_eq!(fenbu_counts(&vec![(1, i64::MAX), (-2, 1)]), Some((i64::MAX, 1, 0)));
}

#[test]
fn pool_data_or_an_empty_pool() {
    let d = topic_pool_from(data(obj(vec![("tc", n("42")), ("pool", arr(vec![obj(vec![])]))])));
    assert_eq!(d.get("tc").and_then(|x| x.as_i64()), Some(42));
    let d = topic_pool_from(data(Json::Null));
    assert_eq!(d.get("tc").and_then(|x| x.as_i64()), Some(0));
    assert_eq!(d.get("pool").and_then(|x| x.as_array()).map(|a| a.len()), Some(0));
}

#[test]
fn popularity_rank_responses() {
    assert_eq!(hot_rank_from(data(arr(vec![obj(vec![("sc", s("SZ002185"))])]))).unwrap().len(), 1);
    assert_eq!(hot_rank_from(data(Json::Null)).unwrap_err().message(), "热榜为空");
    assert!(hot_current_from(data(obj(vec![("rank", n("3"))]))).is_ok());
    assert_eq!(hot_current_from(obj(vec![])).unwrap_err().message(), "无排名数据");
    assert!(hot_history_from(data(arr(vec![]))).unwrap().is_empty());
    assert_eq!(hot_history_from(data(obj(vec![]))).unwrap_err().message(), "无历史排名");
}

#[test]
fn forum_announcement_and_news_lists() {
    assert_eq!(guba_posts_from(obj(vec![("re", arr(vec![obj(vec![])]))])).unwrap().len(), 1);
    assert_eq!(guba_posts_from(obj(vec![])).unwrap_err().message(), "帖子列表为空");
    assert_eq!(announcements_from(data(obj(vec![("list", arr(vec![]))]))).unwrap().len(), 0);
    assert_eq!(announcements_from(data(Json::Null)).unwrap_err().message(), "公告为空");
    let v = obj(vec![("result", obj(vec![("cmsArticleWebOld", arr(vec![obj(vec![("title", s("t"))])]))]))]);
    assert_eq!(codes(&news_from(v).unwrap(), "title"), vec!["t"]);
    assert_eq!(news_from(obj(vec![("result", Json::Null)])).unwrap_err().message(), "资讯为空");
}

#[test]
fn watch_list_state() {
    assert!(myfavor_check(&obj(vec![("state", n("0"))])).is_ok());
    let e = myfavor_check(&obj(vec![("state", n("-2")), ("message", s("未登录"))])).unwrap_err();
    assert!(matches!(&e, ApiError::WatchList(-2, m) if m == "未登录"));
    assert_eq!(e.message(), "自选股接口异常 (state=-2): 未登录。Cookie 可能已过期，请重新 em config set-cookie");
    let e = myfavor_check(&obj(vec![])).unwrap_err();
    assert_eq!(e.message(), "自选股接口异常 (state=-1): ?。Cookie 可能已过期，请重新 em config set-cookie");
}

#[test]
fn watch_list_groups_and_stocks() {
    let v = data(obj(vec![(
        "ginfolist",
        arr(vec![
            obj(vec![("gid", s("1")), ("gname", s("自选股"))]),
            obj(vec![("gid", n("2")), ("gname", s("bad"))]),
            obj(vec![("gid", s("3")), ("gname", s("科技"))]),
        ]),
    )]));
    let gs = watch_groups_from(v).unwrap();
    assert_eq!(gs, vec![("1".to_string(), "自选股".to_string()), ("3".to_string(), "科技".to_string())]);
    assert_eq!(watch_groups_from(data(Json::Null)).unwrap_err().message(), "分组列表为空");
    let v = data(obj(vec![(
        "stkinfolist",
        arr(vec![obj(vec![("security", s("0$300339$1"))]), obj(vec![("security", s("x$1$2"))]), obj(vec![("security", s("1$600570$9"))])]),
    )]));
    assert_eq!(watch_stocks_from(v), vec!["0.300339", "1.600570"]);
    assert!(watch_stocks_from(data(Json::Null)).is_empty());
}

#[test]
fn data_center_responses() {
    let v = obj(vec![("result", obj(vec![("data", arr(vec![obj(vec![("TRADE_DATE", s("2024-01-02 00:00:00"))])]))]))]);
    assert!(datacenter_check(&v).is_ok());
    assert_eq!(report_rows_from(v, "R").unwrap().len(), 1);
    let e = datacenter_check(&obj(vec![("result", Json::Null), ("message", s("返回数据为空"))])).unwrap_err();
    assert_eq!(e.message(), "数据中心无结果: 返回数据为空");
    let e = datacenter_check(&obj(vec![])).unwrap_err();
    assert_eq!(e.message(), "数据中心无结果: 无数据");
    let e = report_rows_from(obj(vec![("result", obj(vec![]))]), "RPT_X").unwrap_err();
    assert!(matches!(&e, ApiError::ReportEmpty(r) if r == "RPT_X"));
    assert_eq!(e.message(), "RPT_X 无数据");
}

#[test]
fn popularity_service_success_code() {
    assert!(emappdata_ok(&obj(vec![("code", n("0"))])));
    assert!(!emappdata_ok(&obj(vec![("code", n("1"))])));
    assert!(!emappdata_ok(&obj(vec![("code", s("0"))])));
    assert!(!emappdata_ok(&obj(vec![])));
}

#[test]
fn search_results() {
    let v = obj(vec![(
        "QuotationCodeTable",
        obj(vec![(
            "Data",
            arr(vec![
                obj(vec![("QuoteID", s("0.300339")), ("Code", s("300339")), ("Name", s("润和软件")), ("Classify", s("AStock"))]),
                obj(vec![("QuoteID", s("1.600570")), ("Code", s("600570"))]),
                obj(vec![("QuoteID", s("90.BK1031")), ("Code", s("BK1031")), ("Name", s("光伏设备"))]),
            ]),
        )]),
    )]);
    let list = suggest_list_from(v);
    assert_eq!(
        list,
        vec![
            ("0.300339".to_string(), ("300339".to_string(), "润和软件".to_string()), "AStock".to_string()),
            ("90.BK1031".to_string(), ("BK1031".to_string(), "光伏设备".to_string()), "".to_string()),
        ]
    );
    assert!(suggest_list_from(obj(vec![])).is_empty());
}

#[test]
fn quote_batches_of_eighty() {
    assert_eq!(quote_batches(0), vec![(0, 0)]);
    assert_eq!(quote_batches(5), vec![(0, 5)]);
    assert_eq!(quote_batches(80), vec![(0, 80)]);
    assert_eq!(quote_batches(81), vec![(0, 80), (80, 81)]);
    assert_eq!(quote_batches(160), vec![(0, 80), (80, 160)]);
    assert_eq!(quote_batches(161), vec![(0, 80), (80, 160), (160, 161)]);
}

#[test]
fn quote_batches_cover_every_secid_once() {
    for n in [0usize, 1, 79, 80, 81, 159, 160, 161, 800, 1001] {
        let b = quote_batches(n);
        assert_eq!(b[0].0, 0);
        assert_eq!(b[b.len() - 1].1, n);
        for w in b.windows(2) {
            assert_eq!(w[0].1, w[1].0);
        }
        for (lo, hi) in &b {
            assert!(lo <= hi && hi - lo <= 80);
            assert!(n == 0 || lo < hi);
        }
    }
}

#[test]
fn secid_list_for_a_batch() {
    let ids = vec!["1.000001".to_string(), "0.399001".to_string()];
    assert_eq!(join_secids(&ids), "1.000001,0.399001");
    assert_eq!(join_secids(&Vec::new()), "");
}

#[test]
fn jsonp_bodies_are_unwrapped() {
    assert_eq!(jsonp_payload("cb({\"a\":1});"), "{\"a\":1}");
    assert_eq!(jsonp_payload("  jQuery123({\"x\":[1,2]})\n"), "{\"x\":[1,2]}");
    assert_eq!(jsonp_payload("{\"a\":\"(x)\"}"), "{\"a\":\"(x)\"}");
    assert_eq!(jsonp_payload(" [1] "), "[1]");
    assert_eq!(jsonp_payload("plain"), "plain");
    assert_eq!(jsonp_payload(")("), ")(");
}

#[test]
fn pool_request_by_kind() {
    assert_eq!(
        topic_pool_request("ZT"),
        ("https://push2ex.eastmoney.com/getTopicZTPool".to_string(), "fbt:asc")
    );
    assert_eq!(
        topic_pool_request("DT"),
        ("https://push2ex.eastmoney.com/getTopicDTPool".to_string(), "fund:asc")
    );
    assert_eq!(topic_pool_request("ZB").1, "fund:asc");
}

fn pairs(v: &[(&str, &str)]) -> Vec<(String, String)> {
    v.iter().map(|(k, x)| (k.to_string(), x.to_string())).collect()
}

#[test]
fn data_center_request_parameters() {
    let (url, q) = report_request("RPT_DAILYBILLBOARD_DETAILSNEW", "(TRADE_DATE='2024-01-02')", "BILLBOARD_NET_AMT", "-1", 60, false);
    assert_eq!(url, "https://datacenter-web.eastmoney.com/api/data/v1/get");
    assert_eq!(
        q,
        pairs(&[
            ("reportName", "RPT_DAILYBILLBOARD_DETAILSNEW"),
            ("columns", "ALL"),
            ("pageNumber", "1"),
            ("pageSize", "60"),
            ("filter", "(TRADE_DATE='2024-01-02')"),
            ("sortColumns", "BILLBOARD_NET_AMT"),
            ("sortTypes", "-1"),
        ])
    );
    let (url, q) = report_request("RPT_F10_BASIC_ORGINFO", "(SECUCODE=\"300339.SZ\")", "", "", 1, true);
    assert_eq!(url, "https://datacenter.eastmoney.com/securities/api/data/v1/get");
    assert_eq!(
        q,
        pairs(&[
            ("reportName", "RPT_F10_BASIC_ORGINFO"),
            ("columns", "ALL"),
            ("pageNumber", "1"),
            ("pageSize", "1"),
            ("filter", "(SECUCODE=\"300339.SZ\")"),
            ("source", "HSF10"),
            ("client", "PC"),
        ])
    );
    let (_, q) = report_request("R", "", "", "", 0, false);
    assert_eq!(q, pairs(&[("reportName", "R"), ("columns", "ALL"), ("pageNumber", "1"), ("pageSize", "0")]));
}

#[test]
fn request_ids_look_like_uuids() {
    assert_eq!(global_id_from(0), "00000000-0000-0000-0000-000000000000");
    assert_eq!(global_id_from(u128::MAX), "ffffffff-ffff-ffff-ffff-ffffffffffff");
    assert_eq!(global_id_from(0x0123456789abcdef0123456789abcdef), "01234567-89ab-cdef-0123-456789abcdef");
    assert_eq!(global_id_from(255), "00000000-0000-0000-0000-0000000000ff");
}

#[test]
fn pacing_keeps_requests_apart() {
    assert_eq!(REQUEST_GAP_NANOS, 150_000_000);
    assert_eq!(pacing_wait(0), 150_000_000);
    assert_eq!(pacing_wait(100_000_000), 50_000_000);
    assert_eq!(pacing_wait(149_999_999), 1);
    assert_eq!(pacing_wait(150_000_000), 0);
    assert_eq!(pacing_wait(u64::MAX), 0);
}

#[test]
fn mirror_hosts_are_tried_in_order() {
    assert_eq!(host_step(0, 2, true), HostStep::Answer(false));
    assert_eq!(host_step(1, 2, true), HostStep::Answer(true));
    assert_eq!(host_step(0, 2, false), HostStep::Retry(1));
    assert_eq!(host_step(1, 2, false), HostStep::Fail);
    let mut i = 0;
    let mut tried = Vec::new();
    loop {
        tried.push(i);
        match host_step(i, 4, false) {
            HostStep::Retry(next) => i = next,
            HostStep::Fail => break,
            HostStep::Answer(_) => unreachable!(),
        }
    }
    assert_eq!(tried, vec![0, 1, 2, 3]);
}
