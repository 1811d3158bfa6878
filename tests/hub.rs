use we_cross_proxy::hub::WeCrossHub;

fn s(x: &str) -> String {
    x.to_string()
}

fn sample_request(contract: &mut WeCrossHub, invoke: bool) -> String {
    let args = vec![s("a"), s("b")];
    if invoke {
        contract.interchainInvoke(s("path"), s("method"), args, s("callback_path"), s("callback_method"), s("alice"))
    } else {
        contract.interchainQuery(s("path"), s("method"), args, s("callback_path"), s("callback_method"), s("alice"))
    }
}

#[test]
fn getVersion_works() {
    let contract = WeCrossHub::new();
    assert_eq!(contract.getVersion(), "v1.0.0");
}

#[test]
fn getIncrement_works() {
    let contract = WeCrossHub::new();
    assert_eq!(contract.getIncrement(), 0);
}

#[test]
fn interchainInvoke_works() {
    let mut contract = WeCrossHub::new();
    assert_eq!(sample_request(&mut contract, true), "1");
    assert_eq!(contract.getIncrement(), 1);
    assert_eq!(contract.getInterchainRequests(1), "[\"[\\\"1\\\",\\\"1\\\",\\\"path\\\",\\\"method\\\",\\\"[\\\\\\\"a\\\\\\\",\\\\\\\"b\\\\\\\"]\\\",\\\"callback_path\\\",\\\"callback_method\\\",\\\"alice\\\"]\"]");
}

#[test]
fn interchainQuery_works() {
    let mut contract = WeCrossHub::new();
    sample_request(&mut contract, false);
    assert_eq!(contract.getIncrement(), 1);
    assert_eq!(contract.getInterchainRequests(10), "[\"[\\\"1\\\",\\\"0\\\",\\\"path\\\",\\\"method\\\",\\\"[\\\\\\\"a\\\\\\\",\\\\\\\"b\\\\\\\"]\\\",\\\"callback_path\\\",\\\"callback_method\\\",\\\"alice\\\"]\"]");
}

#[test]
fn getInterchainRequests_works() {
    let mut contract = WeCrossHub::new();
    sample_request(&mut contract, true);
    assert_eq!(contract.getIncrement(), 1);
    assert_eq!(contract.getInterchainRequests(0), "[]");
    assert_eq!(contract.getInterchainRequests(1), "[\"[\\\"1\\\",\\\"1\\\",\\\"path\\\",\\\"method\\\",\\\"[\\\\\\\"a\\\\\\\",\\\\\\\"b\\\\\\\"]\\\",\\\"callback_path\\\",\\\"callback_method\\\",\\\"alice\\\"]\"]");
    assert_eq!(contract.getInterchainRequests(100000000), "[\"[\\\"1\\\",\\\"1\\\",\\\"path\\\",\\\"method\\\",\\\"[\\\\\\\"a\\\\\\\",\\\\\\\"b\\\\\\\"]\\\",\\\"callback_path\\\",\\\"callback_method\\\",\\\"alice\\\"]\"]");
}

#[test]
fn updateCurrentRequestIndex_works() {
    let mut contract = WeCrossHub::new();
    contract.updateCurrentRequestIndex(1);
    assert_eq!(contract.getCurrentIndex(), 1);

    contract.updateCurrentRequestIndex(0);
    assert_eq!(contract.getCurrentIndex(), 1);

    contract.updateCurrentRequestIndex(100000000);
    assert_eq!(contract.getCurrentIndex(), 100000000);
}

#[test]
fn callback_works() {
    let mut contract = WeCrossHub::new();
    contract.registerCallbackResult(
        s("_uid"),
        s("_tid"),
        s("_seq"),
        s("_errorCode"),
        s("_errorMsg"),
        vec![s("a"), s("b")],
    );
    assert_eq!(
        contract.selectCallbackResult(&s("_uid")),
        Some(vec![s("_tid"), s("_seq"), s("_errorCode"), s("_errorMsg"), s("[\"a\",\"b\"]")])
    );
}

#[test]
fn hub_missing_callback_is_none() {
    let contract = WeCrossHub::new();
    assert_eq!(contract.selectCallbackResult(&s("nobody")), None);
}

#[test]
fn hub_callback_is_overwritten() {
    let mut contract = WeCrossHub::new();
    contract.registerCallbackResult(s("u"), s("t1"), s("1"), s("0"), s(""), vec![]);
    contract.registerCallbackResult(s("u"), s("t2"), s("2"), s("1"), s("bad"), vec![s("x")]);
    assert_eq!(
        contract.selectCallbackResult(&s("u")),
        Some(vec![s("t2"), s("2"), s("1"), s("bad"), s("[\"x\"]")])
    );
}

#[test]
fn hub_fetch_is_fifo_and_acknowledge_is_monotonic() {
    let mut contract = WeCrossHub::new();
    assert_eq!(contract.getInterchainRequests(5), "null");
    contract.interchainInvoke(s("p1"), s("m"), vec![], s("cp"), s("cm"), s("bob"));
    contract.interchainQuery(s("p2"), s("m"), vec![], s("cp"), s("cm"), s("bob"));
    contract.interchainInvoke(s("p3"), s("m"), vec![], s("cp"), s("cm"), s("bob"));
    assert_eq!(contract.getIncrement(), 3);
    let first = "\"[\\\"1\\\",\\\"1\\\",\\\"p1\\\",\\\"m\\\",\\\"[]\\\",\\\"cp\\\",\\\"cm\\\",\\\"bob\\\"]\"";
    let second = "\"[\\\"2\\\",\\\"0\\\",\\\"p2\\\",\\\"m\\\",\\\"[]\\\",\\\"cp\\\",\\\"cm\\\",\\\"bob\\\"]\"";
    let third = "\"[\\\"3\\\",\\\"1\\\",\\\"p3\\\",\\\"m\\\",\\\"[]\\\",\\\"cp\\\",\\\"cm\\\",\\\"bob\\\"]\"";
    assert_eq!(contract.getInterchainRequests(2), format!("[{},{}]", first, second));
    contract.updateCurrentRequestIndex(1);
    assert_eq!(contract.getInterchainRequests(10), format!("[{},{}]", second, third));
    contract.updateCurrentRequestIndex(1);
    assert_eq!(contract.getCurrentIndex(), 1);
    contract.updateCurrentRequestIndex(3);
    assert_eq!(contract.getInterchainRequests(10), "null");
}

#[test]
fn hub_cursor_past_the_end_reads_null() {
    let mut contract = WeCrossHub::new();
    contract.updateCurrentRequestIndex(100000000);
    assert_eq!(contract.getInterchainRequests(1), "null");
}
