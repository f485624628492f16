use borsh::BorshSerialize;
use devlaunch_contracts::{
    process_create_template, process_deploy_token, process_instruction,
    process_register_trading_pair, Account, ProgramError, Pubkey, TokenInstruction, TokenTemplate,
};
use std::mem::size_of;

fn key(b: u8) -> Pubkey {
    Pubkey::new_from_array([b; 32])
}

fn accounts(program_id: Pubkey, admin_signed: bool, data_len: usize) -> Vec<Account> {
    vec![
        Account { key: key(10), owner: program_id, is_signer: false, data: vec![0u8; data_len] },
        Account { key: key(20), owner: key(99), is_signer: admin_signed, data: vec![7u8; 4] },
    ]
}

fn create_data(name: &str, symbol: &str, decimals: u8) -> Vec<u8> {
    TokenInstruction::CreateTemplate {
        name: name.to_string(),
        symbol: symbol.to_string(),
        decimals,
    }
    .try_to_vec()
    .unwrap()
}

#[test]
fn test_create_token_template() {
    let program_id = key(1);
    let admin = key(20);
    let template_data_size = size_of::<TokenTemplate>() + 100;
    let mut accts = accounts(program_id, true, template_data_size);
    let template_name = "Test Token".to_string();
    let template_symbol = "TEST".to_string();
    let template_decimals = 9;
    let instruction_data = create_data(&template_name, &template_symbol, template_decimals);

    process_instruction(&program_id, &mut accts, &instruction_data).unwrap();

    let template = TokenTemplate::deserialize(&accts[0].data).unwrap();
    assert_eq!(template.name, template_name);
    assert_eq!(template.symbol, template_symbol);
    assert_eq!(template.decimals, template_decimals);
    assert_eq!(template.is_active, true);
    assert_eq!(template.created_by, admin);
    assert_eq!(accts[0].data.len(), template_data_size);
}

#[test]
fn create_keeps_bytes_after_the_record() {
    let program_id = key(1);
    let mut accts = accounts(program_id, true, 60);
    accts[0].data = vec![5u8; 60];
    process_create_template(&program_id, &mut accts, "A".to_string(), "B".to_string(), 2)
        .unwrap();
    let mut expected = vec![1u8, 0, 0, 0, b'A', 1, 0, 0, 0, b'B', 2, 1];
    expected.extend_from_slice(&[20u8; 32]);
    let n = expected.len();
    assert_eq!(&accts[0].data[..n], &expected[..]);
    assert!(accts[0].data[n..].iter().all(|b| *b == 5));
    assert_eq!(accts[0].data.len(), 60);
}

#[test]
fn create_without_admin_signature_fails() {
    let program_id = key(1);
    let mut accts = accounts(program_id, false, 200);
    let before = accts[0].data.clone();
    let r = process_instruction(&program_id, &mut accts, &create_data("Test Token", "TEST", 9));
    assert_eq!(r, Err(ProgramError::MissingRequiredSignature));
    assert_eq!(accts[0].data, before);
}

#[test]
fn create_with_foreign_template_account_fails() {
    let program_id = key(1);
    let mut accts = accounts(key(2), true, 200);
    let before = accts[0].data.clone();
    let r = process_instruction(&program_id, &mut accts, &create_data("Test Token", "TEST", 9));
    assert_eq!(r, Err(ProgramError::IncorrectProgramId));
    assert_eq!(accts[0].data, before);
}

#[test]
fn unsigned_admin_is_reported_before_foreign_owner() {
    let program_id = key(1);
    let mut accts = accounts(key(2), false, 200);
    let r = process_instruction(&program_id, &mut accts, &create_data("T", "T", 0));
    assert_eq!(r, Err(ProgramError::MissingRequiredSignature));
}

#[test]
fn create_with_one_account_fails() {
    let program_id = key(1);
    let mut accts = accounts(program_id, true, 200);
    accts.truncate(1);
    let r = process_instruction(&program_id, &mut accts, &create_data("T", "T", 0));
    assert_eq!(r, Err(ProgramError::NotEnoughAccountKeys));
}

#[test]
fn create_into_small_buffer_fails_and_writes_nothing() {
    let program_id = key(1);
    // 4 + 10 + 4 + 4 + 1 + 1 + 32 = 56 bytes are needed.
    let mut accts = accounts(program_id, true, 55);
    let r = process_instruction(&program_id, &mut accts, &create_data("Test Token", "TEST", 9));
    assert_eq!(r, Err(ProgramError::BorshIoError));
    assert_eq!(accts[0].data, vec![0u8; 55]);

    let mut accts = accounts(program_id, true, 56);
    let r = process_instruction(&program_id, &mut accts, &create_data("Test Token", "TEST", 9));
    assert_eq!(r, Ok(()));
}

#[test]
fn create_template_with_empty_texts() {
    let program_id = key(1);
    let mut accts = accounts(program_id, true, 42);
    process_instruction(&program_id, &mut accts, &create_data("", "", 255)).unwrap();
    let t = TokenTemplate::deserialize(&accts[0].data).unwrap();
    assert_eq!(t.name, "");
    assert_eq!(t.symbol, "");
    assert_eq!(t.decimals, 255);
}

#[test]
fn create_template_with_non_ascii_name() {
    let program_id = key(1);
    let mut accts = accounts(program_id, true, 100);
    process_instruction(&program_id, &mut accts, &create_data("Jeton Été", "ÉTÉ", 6)).unwrap();
    let t = TokenTemplate::deserialize(&accts[0].data).unwrap();
    assert_eq!(t.name, "Jeton Été");
    assert_eq!(t.symbol, "ÉTÉ");
    assert_eq!(&accts[0].data[0..4], &[11u8, 0, 0, 0]);
}

#[test]
fn deploy_token_changes_nothing() {
    let program_id = key(1);
    let mut accts = accounts(program_id, true, 30);
    accts[0].data = (0u8..30).collect();
    let before: Vec<Vec<u8>> = accts.iter().map(|a| a.data.clone()).collect();
    let data = TokenInstruction::DeployToken { template_id: 7, initial_supply: 1_000_000 }
        .try_to_vec()
        .unwrap();
    assert_eq!(process_instruction(&program_id, &mut accts, &data), Ok(()));
    let after: Vec<Vec<u8>> = accts.iter().map(|a| a.data.clone()).collect();
    assert_eq!(before, after);
    assert_eq!(process_deploy_token(&program_id, &accts, 0, u64::MAX), Ok(()));
}

#[test]
fn register_trading_pair_changes_nothing() {
    let program_id = key(1);
    let mut accts: Vec<Account> = Vec::new();
    let data = TokenInstruction::RegisterTradingPair { token_address: key(3), initial_price: 42 }
        .try_to_vec()
        .unwrap();
    assert_eq!(process_instruction(&program_id, &mut accts, &data), Ok(()));
    assert!(accts.is_empty());
    let mut accts = accounts(program_id, false, 8);
    accts[0].data = vec![9u8; 8];
    assert_eq!(process_instruction(&program_id, &mut accts, &data), Ok(()));
    assert_eq!(accts[0].data, vec![9u8; 8]);
    assert_eq!(process_register_trading_pair(&program_id, &accts, key(4), 0), Ok(()));
}

#[test]
fn instruction_encodings_are_exact() {
    let deploy = TokenInstruction::DeployToken { template_id: 1, initial_supply: 0x0102 }
        .try_to_vec()
        .unwrap();
    assert_eq!(deploy, vec![1u8, 1, 0, 0, 0, 0, 0, 0, 0, 2, 1, 0, 0, 0, 0, 0, 0]);
    assert_eq!(create_data("ab", "X", 6), vec![0u8, 2, 0, 0, 0, b'a', b'b', 1, 0, 0, 0, b'X', 6]);
    let register = TokenInstruction::RegisterTradingPair { token_address: key(3), initial_price: 5 }
        .try_to_vec()
        .unwrap();
    let mut expected = vec![2u8];
    expected.extend_from_slice(&[3u8; 32]);
    expected.extend_from_slice(&[5u8, 0, 0, 0, 0, 0, 0, 0]);
    assert_eq!(register, expected);
}

#[test]
fn encodings_match_borsh() {
    let ours = create_data("Test Token", "TEST", 9);
    let theirs = (0u8, "Test Token".to_string(), "TEST".to_string(), 9u8).try_to_vec().unwrap();
    assert_eq!(ours, theirs);
    let ours = TokenInstruction::DeployToken { template_id: 77, initial_supply: u64::MAX }
        .try_to_vec()
        .unwrap();
    let theirs = (1u8, 77u64, u64::MAX).try_to_vec().unwrap();
    assert_eq!(ours, theirs);
    let t = TokenTemplate {
        name: "Name".to_string(),
        symbol: "SYM".to_string(),
        decimals: 3,
        is_active: true,
        created_by: key(8),
    };
    let theirs =
        ("Name".to_string(), "SYM".to_string(), 3u8, true, [8u8; 32]).try_to_vec().unwrap();
    assert_eq!(t.try_to_vec().unwrap(), theirs);
}

#[test]
fn decoding_round_trips() {
    let i = TokenInstruction::CreateTemplate {
        name: "Test Token".to_string(),
        symbol: "TEST".to_string(),
        decimals: 9,
    };
    match TokenInstruction::try_from_slice(&i.try_to_vec().unwrap()).unwrap() {
        TokenInstruction::CreateTemplate { name, symbol, decimals } => {
            assert_eq!(name, "Test Token");
            assert_eq!(symbol, "TEST");
            assert_eq!(decimals, 9);
        }
        other => panic!("decoded {:?}", other),
    }
    let data = TokenInstruction::RegisterTradingPair { token_address: key(6), initial_price: 9 }
        .try_to_vec()
        .unwrap();
    match TokenInstruction::try_from_slice(&data).unwrap() {
        TokenInstruction::RegisterTradingPair { token_address, initial_price } => {
            assert_eq!(token_address, key(6));
            assert_eq!(initial_price, 9);
        }
        other => panic!("decoded {:?}", other),
    }
}

#[test]
fn malformed_instruction_data_is_refused() {
    let program_id = key(1);
    let cases: Vec<Vec<u8>> = vec![
        vec![],
        vec![3u8],
        vec![1u8, 0, 0],
        vec![1u8; 18],
        vec![0u8, 1, 0, 0, 0, b'a', 0, 0, 0, 0],
        vec![0u8, 1, 0, 0, 0, b'a', 0, 0, 0, 0, 9, 9],
        vec![0u8, 2, 0, 0, 0, 0xff, 0xfe, 0, 0, 0, 0, 9],
        vec![0u8, 9, 0, 0, 0, b'a'],
        vec![2u8; 40],
    ];
    for data in cases {
        let mut accts = accounts(program_id, true, 100);
        assert_eq!(
            process_instruction(&program_id, &mut accts, &data),
            Err(ProgramError::InvalidInstructionData),
            "{:?}",
            data
        );
        assert_eq!(accts[0].data, vec![0u8; 100]);
        assert!(TokenInstruction::try_from_slice(&data).is_err());
    }
}

#[test]
fn template_reads_only_from_valid_data() {
    assert_eq!(TokenTemplate::deserialize(&[]).unwrap_err(), ProgramError::InvalidAccountData);
    let t = TokenTemplate {
        name: "N".to_string(),
        symbol: "S".to_string(),
        decimals: 1,
        is_active: false,
        created_by: key(4),
    };
    let mut bytes = t.try_to_vec().unwrap();
    let back = TokenTemplate::deserialize(&bytes).unwrap();
    assert_eq!(back.is_active, false);
    assert_eq!(back.created_by, key(4));
    bytes[11] = 2;
    assert_eq!(TokenTemplate::deserialize(&bytes).unwrap_err(), ProgramError::InvalidAccountData);
    assert!(TokenTemplate::deserialize(&bytes[..40]).is_err());
}

#[test]
fn serialize_into_buffer() {
    let t = TokenTemplate {
        name: "N".to_string(),
        symbol: "S".to_string(),
        decimals: 1,
        is_active: true,
        created_by: key(4),
    };
    let mut small = vec![6u8; 43];
    assert_eq!(t.serialize(&mut small), Err(ProgramError::BorshIoError));
    assert_eq!(small, vec![6u8; 43]);
    let mut buf = vec![6u8; 45];
    assert_eq!(t.serialize(&mut buf), Ok(()));
    assert_eq!(&buf[..44], &t.try_to_vec().unwrap()[..]);
    assert_eq!(buf[44], 6);
}

#[test]
fn keys_compare_by_bytes() {
    let mut b = [1u8; 32];
    assert!(key(1).same_as(&Pubkey::new_from_array(b)));
    b[31] = 2;
    assert!(!key(1).same_as(&Pubkey::new_from_array(b)));
    assert_eq!(Pubkey::new_from_array(b).to_bytes(), b);
}
