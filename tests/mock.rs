use cairo_lang_test_runner::felt::Felt;
use cairo_lang_test_runner::mock::{
    address_from_string, contract_name_from_info, starknet_add_mocked_addresses,
    starknet_state_from_mocked_addresses, ContractInfo, FunctionRef, MockConfig, MockTable, MockedState,
};

fn func(name: &str) -> FunctionRef {
    FunctionRef { debug_name: Some(name.to_string()) }
}

fn contract(hash: u128, constructor: Option<&str>, entry_points: Vec<&str>) -> ContractInfo {
    ContractInfo {
        class_hash: Felt::from_u128(hash),
        constructor: constructor.map(func),
        entry_points: entry_points.into_iter().map(func).collect(),
    }
}

fn address(s: &str) -> Felt {
    match address_from_string(&s.to_string()) {
        Ok(f) => f,
        Err(e) => panic!("cannot read {} in radix {}", e.address, e.radix),
    }
}

#[test]
fn hex_and_decimal_addresses_agree() {
    assert_eq!(address("0x1a"), address("26"));
    assert_eq!(address("26"), Felt::from_u128(26));
}

#[test]
fn bad_hex_address_names_string_and_radix() {
    match address_from_string(&"0xZZ".to_string()) {
        Err(e) => {
            assert_eq!(e.address, "0xZZ");
            assert_eq!(e.radix, 16);
        }
        Ok(_) => panic!("expected a parse error"),
    }
}

#[test]
fn bad_decimal_address_names_radix_ten() {
    match address_from_string(&"12a".to_string()) {
        Err(e) => {
            assert_eq!(e.address, "12a");
            assert_eq!(e.radix, 10);
        }
        Ok(_) => panic!("expected a parse error"),
    }
    assert!(address_from_string(&"".to_string()).is_err());
    assert!(address_from_string(&"0x".to_string()).is_err());
    assert!(address_from_string(&"-5".to_string()).is_err());
}

#[test]
fn address_digits_with_sign_and_underscores() {
    assert_eq!(address("+1_000"), Felt::from_u128(1000));
    assert_eq!(address("0xFF"), Felt::from_u128(255));
}

#[test]
fn large_address_is_reduced_modulo_prime() {
    // The prime itself reads as zero, the prime plus one as one.
    let p = "0x800000000000011000000000000000000000000000000000000000000000001";
    let p1 = "0x800000000000011000000000000000000000000000000000000000000000002";
    assert_eq!(address(p), Felt::from_u128(0));
    assert_eq!(address(p1), Felt::from_u128(1));
    let high = "0x100000000000000000000000000000000";
    assert_eq!(address(high), Felt { low: 0, high: 1 });
}

#[test]
fn contract_name_from_constructor_or_first_named_entry_point() {
    let c = contract(1, Some("test::ERC20::__constructor::constructor"), vec![]);
    assert_eq!(contract_name_from_info(&c), Some("ERC20".to_string()));
    let c = contract(1, None, vec!["pkg::Vault::__external::deposit", "pkg::Other::__external::x"]);
    assert_eq!(contract_name_from_info(&c), Some("Vault".to_string()));
    let c = contract(1, None, vec![]);
    assert_eq!(contract_name_from_info(&c), None);
    let c = ContractInfo {
        class_hash: Felt::from_u128(1),
        constructor: Some(FunctionRef { debug_name: None }),
        entry_points: vec![func("a::B::c::d")],
    };
    assert_eq!(contract_name_from_info(&c), Some("B".to_string()));
    let c = ContractInfo {
        class_hash: Felt::from_u128(1),
        constructor: None,
        entry_points: vec![FunctionRef { debug_name: None }, func("m::Pool::__external::swap")],
    };
    assert_eq!(contract_name_from_info(&c), Some("Pool".to_string()));
    let c = ContractInfo {
        class_hash: Felt::from_u128(1),
        constructor: Some(FunctionRef { debug_name: None }),
        entry_points: vec![FunctionRef { debug_name: None }],
    };
    assert_eq!(contract_name_from_info(&c), None);
    let c = contract(1, Some("Token::constructor"), vec![]);
    assert_eq!(contract_name_from_info(&c), None);
}

#[test]
fn state_binds_singleton_and_instances() {
    let mut global = MockTable::new();
    global.insert("ERC20".to_string(), MockConfig::SingletonAddress("0x10".to_string()));
    global.insert(
        "Vault".to_string(),
        MockConfig::InstanceAddresses(vec![
            ("A".to_string(), "1".to_string()),
            ("B".to_string(), "2".to_string()),
        ]),
    );
    let contracts = vec![
        contract(100, Some("t::ERC20::__constructor::constructor"), vec![]),
        contract(200, None, vec!["t::Vault::__external::deposit"]),
        contract(300, None, vec!["t::Unmocked::__external::f"]),
    ];
    let state = match starknet_state_from_mocked_addresses(&global, &MockTable::new(), &contracts) {
        Ok(s) => s,
        Err(_) => panic!("unexpected error"),
    };
    assert_eq!(
        state.contracts,
        vec![
            (Felt::from_u128(16), Felt::from_u128(100)),
            (Felt::from_u128(1), Felt::from_u128(200)),
            (Felt::from_u128(2), Felt::from_u128(200)),
        ]
    );
}

#[test]
fn test_mocks_take_precedence_over_global() {
    let mut global = MockTable::new();
    global.insert("ERC20".to_string(), MockConfig::SingletonAddress("5".to_string()));
    let mut per_test = MockTable::new();
    per_test.declare("ERC20".to_string(), "6".to_string(), None);
    let contracts = vec![contract(7, Some("t::ERC20::__constructor::constructor"), vec![])];
    let state = match starknet_state_from_mocked_addresses(&global, &per_test, &contracts) {
        Ok(s) => s,
        Err(_) => panic!("unexpected error"),
    };
    assert_eq!(state.contracts, vec![(Felt::from_u128(6), Felt::from_u128(7))]);
    // The global table is left as it was for the next test.
    match global.get("ERC20") {
        Some(MockConfig::SingletonAddress(a)) => assert_eq!(a, "5"),
        _ => panic!("global table changed"),
    }
}

#[test]
fn bad_mocked_address_aborts() {
    let mut global = MockTable::new();
    global.insert("ERC20".to_string(), MockConfig::SingletonAddress("0xZZ".to_string()));
    let contracts = vec![contract(7, Some("t::ERC20::__constructor::constructor"), vec![])];
    let mut state = MockedState::new();
    match starknet_add_mocked_addresses(&mut state, &global, &MockTable::new(), &contracts) {
        Err(e) => {
            assert_eq!(e.address, "0xZZ");
            assert_eq!(e.radix, 16);
        }
        Ok(()) => panic!("expected an error"),
    }
}

#[test]
fn setting_an_address_twice_keeps_the_last_class() {
    let mut state = MockedState::new();
    state.contract_address_set(Felt::from_u128(1), Felt::from_u128(10));
    state.contract_address_set(Felt::from_u128(2), Felt::from_u128(20));
    state.contract_address_set(Felt::from_u128(1), Felt::from_u128(30));
    assert_eq!(
        state.contracts,
        vec![(Felt::from_u128(1), Felt::from_u128(30)), (Felt::from_u128(2), Felt::from_u128(20))]
    );
}

#[test]
fn declarations_accumulate_instances() {
    let mut t = MockTable::new();
    t.declare("ERC20".to_string(), "1".to_string(), Some("A".to_string()));
    t.declare("ERC20".to_string(), "2".to_string(), Some("B".to_string()));
    t.declare("ERC20".to_string(), "3".to_string(), Some("A".to_string()));
    assert_eq!(t.len(), 1);
    match t.get("ERC20") {
        Some(MockConfig::InstanceAddresses(m)) => assert_eq!(
            m,
            &vec![("A".to_string(), "3".to_string()), ("B".to_string(), "2".to_string())]
        ),
        _ => panic!("expected an instance map"),
    }
}
