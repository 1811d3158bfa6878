use we_cross_proxy::samples::{HelloWeCross, HelloWorld, Info, Item, TupleTest};

#[test]
fn test_all() {
    let mut contract = HelloWorld::new();
    assert_eq!(contract.get(), "HelloWorld!");
    contract.set(String::from("Hello WeCross"));
    assert_eq!(contract.get(), "Hello WeCross");
    assert_eq!(contract.get1(String::from("Hello BCOS 3")), "Hello BCOS 3");
    assert_eq!(contract.get2(String::from("Hello FISCO"), String::from(" BCOS")), "Hello FISCO BCOS");
    assert_eq!(contract.get(), "Hello WeCross");
}

#[test]
fn hello_we_cross_test_all() {
    let mut contract = HelloWeCross::new();
    assert_eq!(contract.get(), Vec::<String>::new());

    assert_eq!(contract.set(vec!["1".to_string()]), vec!["1".to_string()]);
    assert_eq!(contract.set(vec!["2".to_string()]), vec!["2".to_string()]);
    assert_eq!(contract.set(vec!["1".to_string(), "2".to_string()]), vec!["1".to_string(), "2".to_string()]);

    assert_eq!(contract.get(), vec!["1".to_string(), "2".to_string()]);
    assert_eq!(contract.getAndClear(), vec!["1".to_string(), "2".to_string()]);
    assert_eq!(contract.get(), Vec::<String>::new());
}

#[test]
fn lib_test_all() {
    let item1 = Item { a: 1, b: 2, c: 3 };
    let mut contract = TupleTest::new(1, item1.clone(), "test1".to_string());
    assert_eq!(contract.get1(), (1, item1.clone(), "test1".to_string()));

    let item2 = Item { a: 10, b: 20, c: 30 };
    contract.set1(2, item2.clone(), "test2".to_string());
    assert_eq!(contract.get1(), (2, item2.clone(), "test2".to_string()));

    let item3 = Item { a: 100, b: 200, c: 300 };
    assert_eq!(contract.getAndSet1(3, item3.clone(), "test3".to_string()), (3, item3.clone(), "test3".to_string()));

    assert_eq!(contract.getAndSet2(2, item2.clone(), "test2".to_string()), (2, item2.clone(), "test2".to_string()));
    assert_eq!(contract.get1(), (3, item3.clone(), "test3".to_string()));

    assert_eq!(
        contract.getSampleTupleValue(),
        (
            100,
            vec![
                vec![Info { name: "Hello world! + 1 ".to_string(), count: 100, items: vec![Item { a: 1, b: 2, c: 3 }] }],
                vec![Info { name: "Hello world! + 2 ".to_string(), count: 101, items: vec![Item { a: 4, b: 5, c: 6 }] }]
            ],
            "Hello world! + 3 ".to_string()
        )
    );
}
