use eastmoney::secid::{
    from_rank_sc, resolve_forms, resolve_local, sc_code, secucode, sector_code, sector_code_upper,
    suggest_from, to_rank_sc,
    watch_entry_to_secid, Lookup, Sec, SecError,
};

fn found(input: &str) -> Sec {
    match resolve_local(input) {
        Ok(Lookup::Found(sec)) => sec,
        other => panic!("{:?} did not resolve locally: {:?}", input, other),
    }
}

fn sec(secid: &str, code: &str) -> Sec {
    Sec { secid: secid.to_string(), code: code.to_string(), name: None }
}

#[test]
fn resolve_six_digit_codes_by_market() {
    let cases = [
        ("300339", "0.300339"),
        ("600570", "1.600570"),
        ("688981", "1.688981"),
        ("000001", "0.000001"),
        ("399006", "0.399006"),
        ("510300", "1.510300"),
        ("159915", "0.159915"),
        ("830799", "0.830799"),
        ("430047", "0.430047"),
        ("920527", "0.920527"),
    ];
    for (input, secid) in cases {
        let s = found(input);
        assert_eq!(s.secid, secid, "input {}", input);
        assert_eq!(s.code, input);
        assert!(s.name.is_none());
    }
}

#[test]
fn resolve_market_prefixes() {
    let s = found("sh000001");
    assert_eq!((s.secid.as_str(), s.code.as_str()), ("1.000001", "000001"));
    let s = found("SZ399001");
    assert_eq!((s.secid.as_str(), s.code.as_str()), ("0.399001", "399001"));
    let s = found("bj830799");
    assert_eq!((s.secid.as_str(), s.code.as_str()), ("0.830799", "830799"));
}

#[test]
fn resolve_sector_code() {
    let s = found("bk1031");
    assert_eq!(s.secid, "90.BK1031");
    assert_eq!(s.code, "BK1031");
}

#[test]
fn resolve_secid_passes_through() {
    let s = found(" 0.300339 ");
    assert_eq!(s.secid, "0.300339");
    assert_eq!(s.code, "300339");
    let s = found("116.00700");
    assert_eq!(s.secid, "116.00700");
    assert_eq!(s.code, "00700");
}

#[test]
fn resolve_other_input_goes_to_search() {
    for (input, kw) in [("润和软件", "润和软件"), (" rhrj ", "rhrj"), ("700000", "700000"), ("sh60057", "sh60057")] {
        match resolve_local(input) {
            Ok(Lookup::Search(k)) => assert_eq!(k, kw),
            other => panic!("{:?} resolved to {:?}", input, other),
        }
    }
}

#[test]
fn resolve_empty_input_is_an_error() {
    for input in ["", "   ", "\t\n"] {
        match resolve_local(input) {
            Err(e) => {
                assert!(matches!(e, SecError::EmptyCode));
                assert_eq!(e.message(), "股票代码为空");
            }
            other => panic!("{:?} gave {:?}", input, other),
        }
    }
}

#[test]
fn resolved_secid_resolves_to_itself() {
    for input in ["300339", "sh600570", "bj830799", "BK1031", "0.300339", "920527"] {
        let first = found(input);
        let again = found(&first.secid);
        assert_eq!(again.secid, first.secid);
        assert_eq!(again.code, first.code);
    }
}

#[test]
fn suggest_picks_first_supported_kind() {
    let list = vec![
        ("116.00700".to_string(), ("00700".to_string(), "腾讯控股".to_string()), "HK".to_string()),
        ("0.300339".to_string(), ("300339".to_string(), "润和软件".to_string()), "AStock".to_string()),
        ("1.600570".to_string(), ("600570".to_string(), "恒生电子".to_string()), "AStock".to_string()),
    ];
    let s = suggest_from(list, "rh").unwrap();
    assert_eq!(s.secid, "0.300339");
    assert_eq!(s.code, "300339");
    assert_eq!(s.name.as_deref(), Some("润和软件"));
}

#[test]
fn suggest_without_supported_kind_is_not_found() {
    let list = vec![("116.00700".to_string(), ("00700".to_string(), "腾讯控股".to_string()), "HK".to_string())];
    let e = suggest_from(list, "腾讯").unwrap_err();
    assert!(matches!(&e, SecError::NotFound(k) if k == "腾讯"));
    assert_eq!(e.message(), "未找到证券: 腾讯");
    let e = suggest_from(Vec::new(), "x").unwrap_err();
    assert_eq!(e.message(), "未找到证券: x");
}

#[test]
fn rank_code_to_secid() {
    assert_eq!(from_rank_sc("SZ002185").as_deref(), Some("0.002185"));
    assert_eq!(from_rank_sc("SH600584").as_deref(), Some("1.600584"));
    assert_eq!(from_rank_sc("BJ830799").as_deref(), Some("0.830799"));
    assert_eq!(from_rank_sc("HK00700"), None);
    assert_eq!(from_rank_sc("sz002185"), None);
    assert_eq!(from_rank_sc("SZ").as_deref(), Some("0."));
}

#[test]
fn secid_to_rank_code() {
    assert_eq!(to_rank_sc("0.002497").as_deref(), Some("SZ002497"));
    assert_eq!(to_rank_sc("1.600570").as_deref(), Some("SH600570"));
    assert_eq!(to_rank_sc("0.920527").as_deref(), Some("BJ920527"));
    assert_eq!(to_rank_sc("0.830799").as_deref(), Some("BJ830799"));
    assert_eq!(to_rank_sc("0.430047").as_deref(), Some("BJ430047"));
    assert_eq!(to_rank_sc("90.BK1031"), None);
    assert_eq!(to_rank_sc("300339"), None);
}

#[test]
fn rank_code_round_trip() {
    for secid in ["0.002497", "1.600570", "0.920527", "0.830799", "0.300339"] {
        let sc = to_rank_sc(secid).unwrap();
        assert_eq!(from_rank_sc(&sc).as_deref(), Some(secid));
    }
}

#[test]
fn secucode_of_a_shares() {
    assert_eq!(secucode(&sec("0.300339", "300339")).unwrap(), "300339.SZ");
    assert_eq!(secucode(&sec("1.600570", "600570")).unwrap(), "600570.SH");
    assert_eq!(secucode(&sec("0.920527", "920527")).unwrap(), "920527.BJ");
    let e = secucode(&sec("90.BK1031", "BK1031")).unwrap_err();
    assert!(matches!(e, SecError::NotAShare));
    assert_eq!(e.message(), "仅支持 A 股");
    let e = secucode(&sec("300339", "300339")).unwrap_err();
    assert!(matches!(e, SecError::InvalidSecid));
    assert_eq!(e.message(), "secid 非法");
}

#[test]
fn exchange_codes_agree() {
    for secid in ["0.300339", "1.600570", "0.920527", "0.830799", "90.BK1031", "116.00700", "300339"] {
        let sc = to_rank_sc(secid);
        let f10 = secucode(&sec(secid, ""));
        match (sc, f10) {
            (Some(sc), Ok(f10)) => assert_eq!(f10, format!("{}.{}", &sc[2..], &sc[..2])),
            (None, Err(_)) => {}
            (a, b) => panic!("{}: {:?} vs {:?}", secid, a, b),
        }
    }
}

#[test]
fn watch_entry_secids() {
    assert_eq!(watch_entry_to_secid("0$300339$123").as_deref(), Some("0.300339"));
    assert_eq!(watch_entry_to_secid("1$600570").as_deref(), Some("1.600570"));
    assert_eq!(watch_entry_to_secid("a$1$2"), None);
    assert_eq!(watch_entry_to_secid("0$$2"), None);
    assert_eq!(watch_entry_to_secid("0"), None);
}

#[test]
fn rank_code_without_exchange() {
    assert_eq!(sc_code("SZ002185"), "002185");
    assert_eq!(sc_code("SZ"), "SZ");
    assert_eq!(sc_code(""), "");
}

#[test]
fn sector_code_is_uppercased() {
    assert_eq!(sector_code("bk1031").as_deref(), Some("BK1031"));
    assert_eq!(sector_code("BK0428").as_deref(), Some("BK0428"));
    assert_eq!(sector_code("300339"), None);
    assert_eq!(sector_code("润和"), None);
}

#[test]
fn resolve_with_given_case_forms() {
    match resolve_forms("Sh600570".to_string(), "sh600570", "SH600570".to_string()) {
        Ok(Lookup::Found(s)) => assert_eq!((s.secid.as_str(), s.code.as_str()), ("1.600570", "600570")),
        other => panic!("{:?}", other),
    }
    match resolve_forms("bk1031".to_string(), "bk1031", "BK1031".to_string()) {
        Ok(Lookup::Found(s)) => assert_eq!((s.secid.as_str(), s.code.as_str()), ("90.BK1031", "BK1031")),
        other => panic!("{:?}", other),
    }
    match resolve_forms("0.300339".to_string(), "", String::new()) {
        Ok(Lookup::Found(s)) => assert_eq!(s.secid, "0.300339"),
        other => panic!("{:?}", other),
    }
    match resolve_forms("润和软件".to_string(), "润和软件", "润和软件".to_string()) {
        Ok(Lookup::Search(k)) => assert_eq!(k, "润和软件"),
        other => panic!("{:?}", other),
    }
    assert!(matches!(resolve_forms(String::new(), "", String::new()), Err(SecError::EmptyCode)));
}

#[test]
fn sector_code_from_uppercase() {
    assert_eq!(sector_code_upper("BK1031".to_string()).as_deref(), Some("BK1031"));
    assert_eq!(sector_code_upper("bk1031".to_string()), None);
    assert_eq!(sector_code_upper("B".to_string()), None);
}
