use token_vesting::{Address, Deployment, Error, TokenVestingFactory};

fn generate(n: u8) -> Address {
    Address::new(format!("address-{}", n).into_bytes())
}

fn wasm_hash() -> [u8; 32] {
    [
        0x89, 0x42, 0x4f, 0xc9, 0xff, 0x1c, 0xf5, 0x3a,
        0xb6, 0x22, 0xeb, 0x16, 0x16, 0xeb, 0xe1, 0x9a,
        0xd3, 0x81, 0x5d, 0x9d, 0x13, 0x97, 0x36, 0xec,
        0x2a, 0x2d, 0x59, 0xe7, 0x5b, 0x07, 0x5c, 0x60,
    ]
}

fn new_wasm_hash() -> [u8; 32] {
    [
        0x89, 0x42, 0x4f, 0xc9, 0xff, 0x1c, 0xf5, 0x3a,
        0xb6, 0x22, 0xeb, 0x16, 0x16, 0xeb, 0xe1, 0x9a,
        0xd3, 0x81, 0x5d, 0x9d, 0x13, 0x97, 0x36, 0xec,
        0x2a, 0x2d, 0x59, 0xe7, 0x5b, 0x07, 0x5c, 0x61,
    ]
}

#[test]
#[should_panic]
fn test_factory_double_initialization() {
    let mut factory = TokenVestingFactory::new();

    let owner: Address = generate(1);
    let wasm_hash: [u8; 32] = [0; 32];

    factory.init(owner.clone(), wasm_hash).unwrap();

    // Panics given that `init` can only be called once.
    factory.init(owner, wasm_hash).unwrap();
}

#[test]
fn test_deploy_token_vesting_manager_contract_from_factory() {
    let mut factory = TokenVestingFactory::new();

    let wasm_hash = wasm_hash();

    let owner: Address = generate(1);

    factory.init(owner, wasm_hash).unwrap();

    let deployment = factory.new_token_vesting_manager();

    let mut salt = [0u8; 32];
    salt[31] = 1;
    assert_eq!(deployment, Deployment { wasm_hash, salt });
}

#[test]
fn test_update_owner() {
    let mut factory = TokenVestingFactory::new();

    let owner: Address = generate(1);
    let wasm_hash: [u8; 32] = wasm_hash();

    factory.init(owner.clone(), wasm_hash).unwrap();

    let new_owner: Address = generate(2);

    factory.update_owner(&owner, new_owner.clone()).unwrap();

    assert_eq!(factory.get_owner(), new_owner);
}

#[test]
#[should_panic]
fn test_update_owner_with_same_address() {
    let mut factory = TokenVestingFactory::new();

    let owner: Address = generate(1);
    let wasm_hash: [u8; 32] = wasm_hash();

    factory.init(owner.clone(), wasm_hash).unwrap();

    // Panics because the factory prevents from updating with same value.
    factory.update_owner(&owner, owner.clone()).unwrap();
}

#[test]
fn test_get_owner() {
    let mut factory = TokenVestingFactory::new();

    let owner: Address = generate(1);
    let wasm_hash: [u8; 32] = wasm_hash();

    factory.init(owner.clone(), wasm_hash).unwrap();

    assert_eq!(factory.get_owner(), owner);
}

#[test]
fn test_update_wasm_hash() {
    let mut factory = TokenVestingFactory::new();

    let owner: Address = generate(1);
    let wasm_hash: [u8; 32] = wasm_hash();

    factory.init(owner.clone(), wasm_hash).unwrap();

    let new_wasm_hash: [u8; 32] = new_wasm_hash();

    factory.update_vesting_manager_wasm_hash(&owner, new_wasm_hash).unwrap();

    assert_eq!(factory.get_vesting_manager_wasm_hash(), new_wasm_hash);
}

#[test]
#[should_panic]
fn test_update_wasm_hash_with_same_hash() {
    let mut factory = TokenVestingFactory::new();

    let owner: Address = generate(1);
    let wasm_hash: [u8; 32] = wasm_hash();

    factory.init(owner.clone(), wasm_hash).unwrap();

    // Panics because the factory prevents from updating with same value.
    factory.update_vesting_manager_wasm_hash(&owner, wasm_hash).unwrap();
}

#[test]
fn test_get_vesting_manager_wasm_hash() {
    let mut factory = TokenVestingFactory::new();

    let owner: Address = generate(1);
    let wasm_hash: [u8; 32] = wasm_hash();

    factory.init(owner, wasm_hash).unwrap();

    assert_eq!(factory.get_vesting_manager_wasm_hash(), wasm_hash);
}

#[test]
fn factory_errors_name_their_reason() {
    let mut factory = TokenVestingFactory::new();
    assert!(!factory.is_initialized());
    let owner = generate(1);
    let stranger = generate(2);
    assert_eq!(factory.init(owner.clone(), wasm_hash()), Ok(()));
    assert!(factory.is_initialized());
    assert_eq!(factory.init(stranger.clone(), new_wasm_hash()), Err(Error::AlreadyInitialized));
    assert_eq!(factory.get_owner(), owner);
    assert_eq!(factory.get_vesting_manager_wasm_hash(), wasm_hash());

    assert_eq!(factory.update_owner(&stranger, generate(3)), Err(Error::NotOwner));
    assert_eq!(factory.update_owner(&stranger, stranger.clone()), Err(Error::NotOwner));
    assert_eq!(factory.update_owner(&owner, owner.clone()), Err(Error::AlreadyInState));
    assert_eq!(factory.get_owner(), owner);

    assert_eq!(
        factory.update_vesting_manager_wasm_hash(&stranger, new_wasm_hash()),
        Err(Error::NotOwner)
    );
    assert_eq!(
        factory.update_vesting_manager_wasm_hash(&owner, wasm_hash()),
        Err(Error::AlreadyInState)
    );
    assert_eq!(factory.get_vesting_manager_wasm_hash(), wasm_hash());
}

#[test]
fn salt_counts_up_with_the_first_byte_highest() {
    let mut factory = TokenVestingFactory::new();
    factory.init(generate(1), wasm_hash()).unwrap();

    let mut expected = [0u8; 32];
    for n in 1..=255u32 {
        let deployment = factory.new_token_vesting_manager();
        expected[31] = n as u8;
        assert_eq!(deployment.salt, expected);
        assert_eq!(deployment.wasm_hash, wasm_hash());
    }
    // The last byte is full: the carry goes into the byte before it.
    let deployment = factory.new_token_vesting_manager();
    expected[31] = 0;
    expected[30] = 1;
    assert_eq!(deployment.salt, expected);
    let deployment = factory.new_token_vesting_manager();
    expected[31] = 1;
    assert_eq!(deployment.salt, expected);

    // 65536 deployments in all carry into the third byte from the end.
    for _ in 258..=65536u32 {
        factory.new_token_vesting_manager();
    }
    let mut expected = [0u8; 32];
    expected[29] = 1;
    let deployment = factory.new_token_vesting_manager();
    expected[31] = 1;
    assert_eq!(deployment.salt, expected);
}

#[test]
fn new_factory_has_no_owner_and_a_zero_salt() {
    let mut factory = TokenVestingFactory::new();
    assert!(!factory.is_initialized());
    assert_eq!(factory.get_salt(), [0u8; 32]);
    factory.init(generate(1), wasm_hash()).unwrap();
    assert_eq!(factory.get_salt(), [0u8; 32]);
}
