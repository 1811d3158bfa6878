use we_cross_proxy::proxy::{BfsInfo, ProxyError, WeCrossProxy, NULL_FLAG, SUCCESS_FLAG, VERSION};

fn s(x: &str) -> String {
    x.to_string()
}

fn strings(v: &[&str]) -> Vec<String> {
    v.iter().map(|x| x.to_string()).collect()
}

const NOW_MS: u64 = 1234567000;

fn start(proxy: &mut WeCrossProxy, id: &str, own: &[&str], other: &[&str], addrs: &[&str]) -> Result<String, ProxyError> {
    proxy.startXATransaction(s(id), strings(own), strings(other), strings(addrs), s("alice"), NOW_MS)
}

fn step(
    proxy: &mut WeCrossProxy,
    uid: &str,
    id: &str,
    seq: u64,
    path: &str,
    func: &str,
    args: &str,
    resolved: &str,
) -> Result<Vec<u8>, ProxyError> {
    proxy.sendTransactionWithXa(
        s(uid),
        s(id),
        seq,
        s(path),
        s(func),
        args.as_bytes().to_vec(),
        s(resolved),
        s("alice"),
        NOW_MS,
        b"ok".to_vec(),
    )
}

#[test]
fn test_new() {
    let proxy = WeCrossProxy::new();
    assert_eq!(proxy.getVersion(), VERSION);
}

#[test]
fn test_addPath() {
    let mut proxy = WeCrossProxy::new();
    proxy.addPath(s("/path/to/contract"));
    assert_eq!(proxy.getPaths(), vec!["/path/to/contract"]);
}

#[test]
fn test_getPaths() {
    let mut proxy = WeCrossProxy::new();
    proxy.addPath(s("zone.chain.contract1"));
    proxy.addPath(s("zone.chain.contract2"));
    assert_eq!(proxy.getPaths(), vec!["zone.chain.contract1", "zone.chain.contract2"]);
}

#[test]
fn test_deletePathList() {
    let mut proxy = WeCrossProxy::new();
    proxy.addPath(s("zone.chain.contract1"));
    proxy.addPath(s("zone.chain.contract2"));
    proxy.deletePathList();
    assert_eq!(proxy.getPaths(), Vec::<String>::new());
}

#[test]
fn test_linkBFS() {
    let mut proxy = WeCrossProxy::new();
    assert_eq!(proxy.linkBFS(s("zone.chain.contract0"), &s("address0"), 0), Ok(()));
    assert_eq!(proxy.getPaths().last().unwrap(), "zone.chain.contract0");

    assert_eq!(proxy.linkBFS(s("zone.chain.contract0"), &s(""), 0), Ok(()));
    assert_eq!(proxy.getPaths(), vec!["zone.chain.contract0", "zone.chain.contract0"]);
}

#[test]
fn test_linkBFS_lock_paninc() {
    let mut proxy = WeCrossProxy::new();
    start(&mut proxy, "xa-id-0", &["zone.chain.contract0"], &[], &["address0"]).unwrap();
    assert_eq!(
        proxy.linkBFS(s("zone.chain.contract0"), &s("address0"), 0),
        Err(ProxyError::ResourceLocked { path: s("contract0"), owner: s("xa-id-0") })
    );
    assert_eq!(proxy.getPaths(), Vec::<String>::new());
}

#[test]
fn test_linkBFS_link_paninc() {
    let mut proxy = WeCrossProxy::new();
    assert_eq!(
        proxy.linkBFS(s("zone.chain.contract0"), &s("address0"), 1),
        Err(ProxyError::LinkFailed { name: s("contract0"), code: 1 })
    );
    assert_eq!(proxy.getPaths(), Vec::<String>::new());
}

#[test]
fn test_readlink() {
    let proxy = WeCrossProxy::new();
    let empty = (s(""), s(""), s(""));
    assert_eq!(proxy.readlink(0, &Vec::new()), empty);
    assert_eq!(proxy.readlink(-1, &Vec::new()), empty);
    let not_link = vec![BfsInfo { file_name: s("not_link"), file_type: s("not_link"), ext: strings(&["address", "abi"]) }];
    assert_eq!(proxy.readlink(1, &not_link), empty);
    let ext_err = vec![BfsInfo { file_name: s("ext_err"), file_type: s("link"), ext: Vec::new() }];
    assert_eq!(proxy.readlink(1, &ext_err), empty);
    let link = vec![BfsInfo { file_name: s("latest"), file_type: s("link"), ext: strings(&["address", "abi"]) }];
    assert_eq!(proxy.readlink(1, &link), (s("latest"), s("address"), s("abi")));
}

#[test]
fn test_constantCallWithXa() {
    let mut proxy = WeCrossProxy::new();
    assert_eq!(start(&mut proxy, "xa-id-0", &["zone.chain.contract0"], &["zone.chain.contract1"], &["address0"]), Ok(s(SUCCESS_FLAG)));
    assert_eq!(proxy.constantCallWithXa(&s("xa-id-0"), &s("zone.chain.contract0"), &s("address0")), Ok(()));
}

#[test]
fn test_constantCallWithXa_not_found_panic() {
    let proxy = WeCrossProxy::new();
    assert_eq!(
        proxy.constantCallWithXa(&s("xa-id-0"), &s("zone.chain.contract0"), &s("address0")),
        Err(ProxyError::TransactionNotFound)
    );
}

#[test]
fn test_constantCallWithXa_not_unregistered_panic() {
    let mut proxy = WeCrossProxy::new();
    assert_eq!(start(&mut proxy, "xa-id-0", &["zone.chain.contract0"], &["zone.chain.contract1"], &["address0"]), Ok(s(SUCCESS_FLAG)));
    assert_eq!(
        proxy.constantCallWithXa(&s("xa-id-0"), &s("zone.chain.contract1"), &s("address1")),
        Err(ProxyError::ResourceUnregistered { path: s("zone.chain.contract1"), id: s("xa-id-0") })
    );
}

#[test]
fn test_constantCall() {
    let proxy = WeCrossProxy::new();
    assert_eq!(proxy.constantCall(&s("zone.chain.contract1"), &s("address0")), Ok(()));
}

#[test]
fn test_constantCall_locked_painc() {
    let mut proxy = WeCrossProxy::new();
    start(&mut proxy, "xa-id-0", &["zone.chain.contract0"], &[], &["address0"]).unwrap();
    assert_eq!(
        proxy.constantCall(&s("zone.chain.contract1"), &s("address0")),
        Err(ProxyError::ResourceLocked { path: s("zone.chain.contract1"), owner: s("xa-id-0") })
    );
}

#[test]
fn test_sendTransactionWithXa() {
    let mut proxy = WeCrossProxy::new();
    // a completed call leaves its result under its uid
    assert_eq!(proxy.sendTransaction(s("tran-uuid-existed"), s("contract"), s("address9"), b"world".to_vec()), Ok(b"world".to_vec()));
    assert_eq!(
        proxy.sendTransactionWithXa(
            s("tran-uuid-existed"),
            s("xa-id-existed"),
            12323,
            s("zone.chain.contract0"),
            s("set"),
            b"hello".to_vec(),
            s("address0"),
            s("alice"),
            NOW_MS,
            b"other".to_vec()
        ),
        Ok(b"world".to_vec())
    );

    assert_eq!(start(&mut proxy, "xa-id-0", &["zone.chain.contract0"], &["zone.chain.contract1"], &["address0"]), Ok(s(SUCCESS_FLAG)));
    assert_eq!(proxy.check_step(&s("xa-id-0"), 12323, &s("zone.chain.contract0"), &s("address0")), Ok(()));
    assert_eq!(step(&mut proxy, "tran-uuid-0", "xa-id-0", 12323, "zone.chain.contract0", "set", "hello", "address0"), Ok(b"ok".to_vec()));
    assert_eq!(proxy.getXATransactionState(&s("zone.chain.contract0"), &s("address0")), Ok(s("xa-id-0 12323")));
}

#[test]
fn test_sendTransactionWithXa_seq_panic() {
    let mut proxy = WeCrossProxy::new();
    assert_eq!(start(&mut proxy, "xa-id-0", &["zone.chain.contract0"], &["zone.chain.contract1"], &["address0"]), Ok(s(SUCCESS_FLAG)));
    step(&mut proxy, "tran-uuid-first", "xa-id-0", 1234, "zone.chain.contract0", "set", "hello", "address0").unwrap();
    assert_eq!(
        step(&mut proxy, "tran-uuid-0", "xa-id-0", 12, "zone.chain.contract0", "set", "hello", "address0"),
        Err(ProxyError::NonMonotonicSequence)
    );
}

#[test]
fn test_sendTransaction() {
    let mut proxy = WeCrossProxy::new();
    assert_eq!(proxy.sendTransaction(s("tran-uuid-existed"), s("contract"), s("address0"), b"world".to_vec()), Ok(b"world".to_vec()));
    assert_eq!(proxy.sendTransaction(s("tran-uuid-existed"), s("contract"), s("address0"), b"hello".to_vec()), Ok(b"world".to_vec()));
    assert_eq!(proxy.sendTransaction(s("tran-uuid-0"), s("contract"), s("address0"), b"hello".to_vec()), Ok(b"hello".to_vec()));
}

#[test]
fn test_sendTransaction_locked_painc() {
    let mut proxy = WeCrossProxy::new();
    start(&mut proxy, "xa-id-0", &["zone.chain.contract0"], &[], &["address0"]).unwrap();
    assert_eq!(
        proxy.sendTransaction(s("tran-uuid-0"), s("contract"), s("address0"), b"hello".to_vec()),
        Err(ProxyError::ResourceLocked { path: s("contract"), owner: s("xa-id-0") })
    );
    assert_eq!(proxy.cached_result(&s("tran-uuid-0")), None);
}

#[test]
fn test_startXATransaction() {
    let mut proxy = WeCrossProxy::new();
    assert_eq!(start(&mut proxy, "xa-id-0", &["zone.chain.contract0"], &["zone.chain.contract1"], &["address0"]), Ok(s(SUCCESS_FLAG)));
}

#[test]
fn test_startXATransaction_exists_painc() {
    let mut proxy = WeCrossProxy::new();
    start(&mut proxy, "xa-id-0", &["zone.chain.contract0"], &["zone.chain.contract1"], &["address0"]).unwrap();
    assert_eq!(
        start(&mut proxy, "xa-id-0", &["zone.chain.contract0"], &["zone.chain.contract1"], &["address0"]),
        Err(ProxyError::AlreadyExists { id: s("xa-id-0") })
    );
}

#[test]
fn test_startXATransaction_lock_painc() {
    let mut proxy = WeCrossProxy::new();
    start(&mut proxy, "xa-id-lock", &["zone.chain.contract9"], &[], &["address0"]).unwrap();
    assert_eq!(
        start(&mut proxy, "xa-id-0", &["zone.chain.contract0"], &["zone.chain.contract1"], &["address0"]),
        Err(ProxyError::ResourceLocked { path: s("zone.chain.contract0"), owner: s("xa-id-lock") })
    );
    assert_eq!(proxy.getXATransactionNumber(), "1");
}

#[test]
fn test_commitXATransaction() {
    let mut proxy = WeCrossProxy::new();
    assert_eq!(start(&mut proxy, "xa-id-0", &["zone.chain.contract0"], &["zone.chain.contract1"], &["address0"]), Ok(s(SUCCESS_FLAG)));
    assert_eq!(proxy.commitXATransaction(s("xa-id-0"), NOW_MS), Ok(s(SUCCESS_FLAG)));
}

#[test]
fn test_commitXATransaction_panic() {
    let mut proxy = WeCrossProxy::new();
    assert_eq!(start(&mut proxy, "xa-id-0", &["zone.chain.contract0"], &["zone.chain.contract1"], &["address0"]), Ok(s(SUCCESS_FLAG)));
    assert_eq!(proxy.commitXATransaction(s("xa-id-1"), NOW_MS), Err(ProxyError::TransactionNotFound));
}

#[test]
fn test_rollbackXATransaction() {
    let mut proxy = WeCrossProxy::new();
    assert_eq!(start(&mut proxy, "xa-id-0", &["zone.chain.contract0"], &["zone.chain.contract1"], &["address0"]), Ok(s(SUCCESS_FLAG)));
    assert_eq!(proxy.rollbackXATransaction(s("xa-id-0"), &Vec::new(), NOW_MS), Ok(s(SUCCESS_FLAG)));

    assert_eq!(start(&mut proxy, "xa-id-1", &["zone.chain.contract0"], &["zone.chain.contract1"], &["address0"]), Ok(s(SUCCESS_FLAG)));
    step(&mut proxy, "u-1", "xa-id-1", 1, "zone.chain.contract2", "get(string,string)", "hello", "address0").unwrap();
    let plan = proxy.rollbackPlan(&s("xa-id-1")).unwrap();
    assert_eq!(plan.len(), 1);
    assert_eq!(plan[0].address, "address0");
    assert_eq!(plan[0].func, "get_revert(string,string)");
    assert_eq!(plan[0].args, b"hello".to_vec());
    assert_eq!(proxy.rollbackXATransaction(s("xa-id-1"), &vec![0], NOW_MS), Ok(s(SUCCESS_FLAG)));
}

#[test]
fn test_getXATransactionNumber() {
    let mut proxy = WeCrossProxy::new();
    assert_eq!(proxy.getXATransactionNumber(), "0");
    start(&mut proxy, "xa-id-0", &[], &[], &[]).unwrap();
    assert_eq!(proxy.getXATransactionNumber(), "1");
}

#[test]
fn test_listXATransactions() {
    let mut proxy = WeCrossProxy::new();
    let empty = "{\"tota\":0,\"xaTransactions\":[]}";
    assert_eq!(proxy.listXATransactions(s("0"), 10), empty);
    assert_eq!(proxy.listXATransactions(s("-1"), 10), empty);
    assert_eq!(proxy.listXATransactions(s("-2"), 10), empty);

    start(&mut proxy, "xa-id-0", &["zone.chain.contract0", "zone.chain.contract1"], &[], &["address0", "address1"]).unwrap();
    let one = "{\"total\":1,\"xaTransactions\":[{\"xaTransactionID\":\"xa-id-0\",\"accountIdentity\":\"alice\",\"status\":\"processing\",\"paths\":[\"zone.chain.contract0\",\"zone.chain.contract1\"],\"timestamp\":1234567}]}";
    assert_eq!(proxy.listXATransactions(s("0"), 10), one);
    assert_eq!(proxy.listXATransactions(s("-1"), 10), one);
    assert_eq!(proxy.listXATransactions(s("1"), 10), empty);
    assert_eq!(proxy.listXATransactions(s("2"), 10), empty);

    start(&mut proxy, "xa-id-1", &["zone.chain.contract02", "zone.chain.contract3"], &[], &["address2", "address3"]).unwrap();
    assert_eq!(proxy.listXATransactions(s("1"), 10), "{\"total\":2,\"xaTransactions\":[{\"xaTransactionID\":\"xa-id-1\",\"accountIdentity\":\"alice\",\"status\":\"processing\",\"paths\":[\"zone.chain.contract02\",\"zone.chain.contract3\"],\"timestamp\":1234567},{\"xaTransactionID\":\"xa-id-0\",\"accountIdentity\":\"alice\",\"status\":\"processing\",\"paths\":[\"zone.chain.contract0\",\"zone.chain.contract1\"],\"timestamp\":1234567}]}");
    assert_eq!(proxy.listXATransactions(s("-1"), 10), "{\"total\":2,\"xaTransactions\":[{\"xaTransactionID\":\"xa-id-1\",\"accountIdentity\":\"alice\",\"status\":\"processing\",\"paths\":[\"zone.chain.contract02\",\"zone.chain.contract3\"],\"timestamp\":1234567},{\"xaTransactionID\":\"xa-id-0\",\"accountIdentity\":\"alice\",\"status\":\"processing\",\"paths\":[\"zone.chain.contract0\",\"zone.chain.contract1\"],\"timestamp\":1234567}]}");
    assert_eq!(proxy.listXATransactions(s("1"), 1), "{\"total\":2,\"xaTransactions\":[{\"xaTransactionID\":\"xa-id-1\",\"accountIdentity\":\"alice\",\"status\":\"processing\",\"paths\":[\"zone.chain.contract02\",\"zone.chain.contract3\"],\"timestamp\":1234567}]}");
    assert_eq!(proxy.listXATransactions(s("0"), 10), "{\"total\":2,\"xaTransactions\":[{\"xaTransactionID\":\"xa-id-0\",\"accountIdentity\":\"alice\",\"status\":\"processing\",\"paths\":[\"zone.chain.contract0\",\"zone.chain.contract1\"],\"timestamp\":1234567}]}");
    assert_eq!(proxy.listXATransactions(s("2"), 10), empty);
}

#[test]
fn test_getXATransaction_panic() {
    let proxy = WeCrossProxy::new();
    assert_eq!(proxy.getXATransaction(s("xa-id-no-found")), Err(ProxyError::TransactionNotFound));
}

#[test]
fn test_getXATransaction() {
    let mut proxy = WeCrossProxy::new();
    start(&mut proxy, "xa-id-0", &["zone.chain.contract0", "zone.chain.contract1"], &[], &["address0", "address1"]).unwrap();
    assert_eq!(proxy.getXATransaction(s("xa-id-0")), Ok(s("{\"xaTransactionID\":\"xa-id-0\",\"accountIdentity\":\"alice\",\"status\":\"processing\",\"paths\":[\"zone.chain.contract0\",\"zone.chain.contract1\"],\"startTimestamp\":1234567,\"commitTimestamp\":0,\"rollbackTimestamp\":0,\"xaTransactionSteps\":[]}")));

    start(&mut proxy, "xa-id-1", &["zone.chain.contract2", "zone.chain.contract3"], &[], &["address2", "address3"]).unwrap();
    step(&mut proxy, "u-1", "xa-id-1", 1, "zone.chain.contract2", "get(string,string)", "hello", "address2").unwrap();
    assert_eq!(proxy.getXATransaction(s("xa-id-1")), Ok(s("{\"xaTransactionID\":\"xa-id-1\",\"accountIdentity\":\"alice\",\"status\":\"processing\",\"paths\":[\"zone.chain.contract2\",\"zone.chain.contract3\"],\"startTimestamp\":1234567,\"commitTimestamp\":0,\"rollbackTimestamp\":0,\"xaTransactionSteps\":[{\"xaTransactionSeq\":1,\"accountIdentity\":\"alice\",\"path\":\"zone.chain.contract2\",\"timestamp\":1234567,\"method\":\"get\",\"args\":\"68656c6c6f\"}]}")));

    start(&mut proxy, "xa-id-2", &["zone.chain.contract4", "zone.chain.contract5"], &[], &["address4", "address5"]).unwrap();
    step(&mut proxy, "u-2", "xa-id-2", 1, "zone.chain.contract2", "get(string,string)", "hello", "address4").unwrap();
    step(&mut proxy, "u-3", "xa-id-2", 123, "zone.chain.contract2", "set_time(string)", "1231234324", "address4").unwrap();
    assert_eq!(proxy.getXATransaction(s("xa-id-2")), Ok(s("{\"xaTransactionID\":\"xa-id-2\",\"accountIdentity\":\"alice\",\"status\":\"processing\",\"paths\":[\"zone.chain.contract4\",\"zone.chain.contract5\"],\"startTimestamp\":1234567,\"commitTimestamp\":0,\"rollbackTimestamp\":0,\"xaTransactionSteps\":[{\"xaTransactionSeq\":1,\"accountIdentity\":\"alice\",\"path\":\"zone.chain.contract2\",\"timestamp\":1234567,\"method\":\"get\",\"args\":\"68656c6c6f\"},{\"xaTransactionSeq\":123,\"accountIdentity\":\"alice\",\"path\":\"zone.chain.contract2\",\"timestamp\":1234567,\"method\":\"set_time\",\"args\":\"31323331323334333234\"}]}")));
}

#[test]
fn test_getLatestXATransaction() {
    let mut proxy = WeCrossProxy::new();
    assert_eq!(proxy.getLatestXATransaction(), "{}");
    start(&mut proxy, "xa-id-0", &["zone.chain.contract0", "zone.chain.contract1"], &[], &["address0", "address1"]).unwrap();
    assert_eq!(proxy.getLatestXATransaction(), "{\"xaTransactionID\":\"xa-id-0\",\"accountIdentity\":\"alice\",\"status\":\"processing\",\"paths\":[\"zone.chain.contract0\",\"zone.chain.contract1\"],\"startTimestamp\":1234567,\"commitTimestamp\":0,\"rollbackTimestamp\":0,\"xaTransactionSteps\":[]}");
}

#[test]
fn test_getLatestXATransactionID() {
    let mut proxy = WeCrossProxy::new();
    assert_eq!(proxy.getLatestXATransactionID(), NULL_FLAG);
    start(&mut proxy, "xa-id-0", &[], &[], &[]).unwrap();
    assert_eq!(proxy.getLatestXATransactionID(), "xa-id-0");
}

#[test]
fn test_rollbackAndDeleteXATransactionTask() {
    let mut proxy = WeCrossProxy::new();
    assert_eq!(start(&mut proxy, "xa-id-0", &["zone.chain.contract0"], &["zone.chain.contract1"], &["address0"]), Ok(s(SUCCESS_FLAG)));
    assert_eq!(proxy.rollbackAndDeleteXATransactionTask(s("xa-id-0"), NOW_MS), Ok(s(SUCCESS_FLAG)));

    assert_eq!(start(&mut proxy, "xa-id-1", &["zone.chain.contract0"], &["zone.chain.contract1"], &["address0"]), Ok(s(SUCCESS_FLAG)));
    step(&mut proxy, "u-1", "xa-id-1", 1, "zone.chain.contract2", "get(string,string)", "hello", "address0").unwrap();
    assert_eq!(proxy.rollbackAndDeleteXATransactionTask(s("xa-id-1"), NOW_MS), Ok(s(SUCCESS_FLAG)));
    assert_eq!(proxy.getLatestXATransactionID(), NULL_FLAG);
}

#[test]
fn test_getXATransactionState() {
    let mut proxy = WeCrossProxy::new();
    assert_eq!(proxy.getXATransactionState(&s("zone.chain.contract0"), &s("address0")), Ok(s(NULL_FLAG)));

    start(&mut proxy, "xa-id-0", &["zone.chain.contract0", "zone.chain.contract1"], &[], &["address0", "address1"]).unwrap();
    assert_eq!(proxy.getXATransactionState(&s("zone.chain.contract0"), &s("address0")), Ok(s("xa-id-0 0")));

    step(&mut proxy, "u-1", "xa-id-0", 1, "zone.chain.contract0", "set(string)", "a", "address0").unwrap();
    assert_eq!(proxy.getXATransactionState(&s("zone.chain.contract0"), &s("address0")), Ok(s("xa-id-0 1")));

    step(&mut proxy, "u-2", "xa-id-0", 123, "zone.chain.contract0", "set(string)", "b", "address0").unwrap();
    assert_eq!(proxy.getXATransactionState(&s("zone.chain.contract0"), &s("address0")), Ok(s("xa-id-0 123")));
}
