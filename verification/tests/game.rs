use commit_reveal::{
    bytes_eq, commitment, duplicate_identity, hash_bytes, identity_eq, serialize_identity,
    CommitRevealContract, Error, Identity, ACCOUNT_TAG, CONTRACT_TAG,
};
use sha2::Digest;

fn account(byte: u8) -> Identity {
    Identity::Account(vec![byte; 32])
}

fn new_game() -> CommitRevealContract {
    CommitRevealContract::new(vec![0u8; 32], 100)
}

fn started_game(image: &[u8]) -> CommitRevealContract {
    let mut game = new_game();
    let target = hash_bytes(&image.to_vec());
    game.initialize(target).unwrap();
    game
}

#[test]
fn test() {
    let image = b"soroban is awesome".to_vec();
    let secret = b"mysecret".to_vec();
    let mut game = started_game(&image);

    let user1 = account(1);
    let val = commitment(&user1, &image, &secret);
    game.commit(duplicate_identity(&user1), val).unwrap();
    let reward = game.check(duplicate_identity(&user1), &image, &secret).unwrap();

    // the reward sink pays 100 units out of the contract's balance of 1000
    assert_eq!(reward.to, user1);
    let mut contract_balance: u64 = 1000;
    let mut user1_balance: u64 = 0;
    contract_balance -= reward.amount;
    user1_balance += reward.amount;
    assert_eq!(contract_balance, 900);
    assert_eq!(user1_balance, 100);
}

#[test]
#[should_panic]
fn test_wrong_solution() {
    let image = b"soroban is awesome".to_vec();
    let wrong = b"soroban is not awesome".to_vec();
    let secret = b"mysecret".to_vec();
    let mut game = started_game(&image);

    let user1 = account(1);
    let val = commitment(&user1, &wrong, &secret);
    game.commit(duplicate_identity(&user1), val).unwrap();
    game.check(duplicate_identity(&user1), &wrong, &secret).unwrap();
}

#[test]
#[should_panic]
fn test_front_run() {
    let image = b"soroban is awesome".to_vec();
    let wrong = b"soroban is not awesome".to_vec();
    let secret = b"mysecret".to_vec();
    let mut game = started_game(&image);

    let user1 = account(1);
    let user2 = account(2);
    let val = commitment(&user1, &wrong, &secret);
    game.commit(user1, val).unwrap();
    game.check(user2, &wrong, &secret).unwrap();
}

#[test]
fn initialize_twice_fails_and_keeps_target() {
    let mut game = new_game();
    let first = hash_bytes(&b"soroban is awesome".to_vec());
    let second = hash_bytes(&b"something else".to_vec());
    assert!(!game.started());
    assert_eq!(game.initialize(first.clone()), Ok(()));
    assert!(game.started());
    assert_eq!(game.initialize(second), Err(Error::AlreadyStarted));
    assert_eq!(game.target_hash(), &first);
}

#[test]
fn commit_before_initialize_fails() {
    let mut game = new_game();
    assert_eq!(
        game.commit(account(1), vec![5u8; 32]),
        Err(Error::NotStarted)
    );
}

#[test]
fn check_without_commit_fails() {
    let mut game = started_game(b"soroban is awesome");
    let r = game.check(account(1), &b"soroban is awesome".to_vec(), &b"mysecret".to_vec());
    assert_eq!(r.unwrap_err(), Error::NoCommit);
}

#[test]
fn check_with_foreign_values_fails() {
    let image = b"soroban is awesome".to_vec();
    let secret = b"mysecret".to_vec();
    let mut game = started_game(&image);
    let user1 = account(1);
    game.commit(duplicate_identity(&user1), vec![5u8; 32]).unwrap();
    let r = game.check(user1, &image, &secret);
    assert_eq!(r.unwrap_err(), Error::CommitMismatch);
}

#[test]
fn check_with_wrong_guess_fails() {
    let image = b"soroban is awesome".to_vec();
    let wrong = b"soroban is not awesome".to_vec();
    let secret = b"mysecret".to_vec();
    let mut game = started_game(&image);
    let user1 = account(1);
    let val = commitment(&user1, &wrong, &secret);
    game.commit(duplicate_identity(&user1), val).unwrap();
    let r = game.check(user1, &wrong, &secret);
    assert_eq!(r.unwrap_err(), Error::WrongSolution);
}

#[test]
fn second_check_is_not_paid_again() {
    let image = b"soroban is awesome".to_vec();
    let secret = b"mysecret".to_vec();
    let mut game = started_game(&image);
    let user1 = account(1);
    let val = commitment(&user1, &image, &secret);
    game.commit(duplicate_identity(&user1), val).unwrap();
    let reward = game.check(duplicate_identity(&user1), &image, &secret).unwrap();
    assert_eq!(reward.amount, 100);
    let again = game.check(user1, &image, &secret);
    assert_eq!(again.unwrap_err(), Error::AlreadyRedeemed);
}

#[test]
fn copied_commitment_fails_for_another_caller() {
    let image = b"soroban is awesome".to_vec();
    let secret = b"mysecret".to_vec();
    let mut game = started_game(&image);
    let user1 = account(1);
    let user2 = account(2);
    // user2 stores the commitment observed from user1's transaction
    let observed = commitment(&user1, &image, &secret);
    game.commit(duplicate_identity(&user2), observed).unwrap();
    let r = game.check(user2, &image, &secret);
    assert_eq!(r.unwrap_err(), Error::CommitMismatch);
}

#[test]
fn recommit_overwrites_earlier_commitment() {
    let image = b"soroban is awesome".to_vec();
    let first_secret = b"mysecret".to_vec();
    let second_secret = b"another".to_vec();
    let mut game = started_game(&image);
    let user1 = account(1);
    let v1 = commitment(&user1, &image, &first_secret);
    let v2 = commitment(&user1, &image, &second_secret);
    game.commit(duplicate_identity(&user1), v1).unwrap();
    game.commit(duplicate_identity(&user1), v2).unwrap();
    // the first commitment no longer counts
    let stale = game.check(duplicate_identity(&user1), &image, &first_secret);
    assert_eq!(stale.unwrap_err(), Error::CommitMismatch);
    // the second one does
    let reward = game.check(user1, &image, &second_secret).unwrap();
    assert_eq!(reward.amount, 100);
}

#[test]
fn getters_report_configuration() {
    let game = CommitRevealContract::new(vec![7u8; 32], 42);
    assert_eq!(game.reward_token(), &vec![7u8; 32]);
    assert_eq!(game.reward_amount(), 42);
    assert!(!game.started());
    assert_eq!(game.target_hash(), &Vec::<u8>::new());
}

#[test]
fn hash_bytes_is_sha256() {
    // the SHA-256 test vector for "abc"
    let expected: [u8; 32] = [
        0xba, 0x78, 0x16, 0xbf, 0x8f, 0x01, 0xcf, 0xea, 0x41, 0x41, 0x40, 0xde, 0x5d, 0xae,
        0x22, 0x23, 0xb0, 0x03, 0x61, 0xa3, 0x96, 0x17, 0x7a, 0x9c, 0xb4, 0x10, 0xff, 0x61,
        0xf2, 0x00, 0x15, 0xad,
    ];
    assert_eq!(hash_bytes(&b"abc".to_vec()), expected.to_vec());
}

#[test]
fn hash_bytes_agrees_with_independent_sha256() {
    let inputs: Vec<Vec<u8>> = vec![
        Vec::new(),
        b"soroban is awesome".to_vec(),
        vec![0u8; 100],
    ];
    for input in inputs {
        let independent = sha2::Sha256::digest(&input).to_vec();
        assert_eq!(hash_bytes(&input), independent);
    }
}

#[test]
fn hash_bytes_handles_large_inputs() {
    // several megabytes, far past any per-call metering of the host library
    let input = vec![0xabu8; 4 * 1024 * 1024];
    let independent = sha2::Sha256::digest(&input).to_vec();
    assert_eq!(hash_bytes(&input), independent);
}

#[test]
fn check_accepts_a_large_guess() {
    let image = vec![0x5eu8; 2 * 1024 * 1024];
    let secret = b"mysecret".to_vec();
    let mut game = started_game(&image);
    let user1 = account(1);
    let val = commitment(&user1, &image, &secret);
    game.commit(duplicate_identity(&user1), val).unwrap();
    let reward = game.check(user1, &image, &secret).unwrap();
    assert_eq!(reward.amount, 100);
}

#[test]
fn commitment_hashes_identity_guess_secret() {
    let user = account(9);
    let guess = b"guess".to_vec();
    let secret = b"secret".to_vec();
    let mut buffer = serialize_identity(&user);
    buffer.extend_from_slice(&guess);
    buffer.extend_from_slice(&secret);
    assert_eq!(commitment(&user, &guess, &secret), hash_bytes(&buffer));
}

#[test]
fn serialization_tags_the_variant() {
    let account_id = Identity::Account(vec![1, 2, 3]);
    let contract_id = Identity::Contract(vec![1, 2, 3]);
    assert_eq!(serialize_identity(&account_id), vec![ACCOUNT_TAG, 1, 2, 3]);
    assert_eq!(serialize_identity(&contract_id), vec![CONTRACT_TAG, 1, 2, 3]);
    assert_ne!(
        serialize_identity(&account_id),
        serialize_identity(&contract_id)
    );
}

#[test]
fn identity_comparison() {
    let a = Identity::Account(vec![1, 2]);
    let b = Identity::Contract(vec![1, 2]);
    assert!(identity_eq(&a, &duplicate_identity(&a)));
    assert!(!identity_eq(&a, &b));
    assert!(!identity_eq(&a, &Identity::Account(vec![1, 3])));
    assert!(bytes_eq(&vec![1, 2], &vec![1, 2]));
    assert!(!bytes_eq(&vec![1, 2], &vec![1, 2, 3]));
}

#[test]
fn empty_guess_and_secret_are_allowed() {
    let image: Vec<u8> = Vec::new();
    let secret: Vec<u8> = Vec::new();
    let mut game = started_game(&image);
    let user1 = account(1);
    let val = commitment(&user1, &image, &secret);
    game.commit(duplicate_identity(&user1), val).unwrap();
    let reward = game.check(user1, &image, &secret).unwrap();
    assert_eq!(reward.amount, 100);
}

#[test]
fn contract_identity_can_play() {
    let image = b"soroban is awesome".to_vec();
    let secret = b"mysecret".to_vec();
    let mut game = started_game(&image);
    let player = Identity::Contract(vec![4u8; 32]);
    let val = commitment(&player, &image, &secret);
    game.commit(duplicate_identity(&player), val).unwrap();
    let reward = game.check(duplicate_identity(&player), &image, &secret).unwrap();
    assert_eq!(reward.to, player);
    assert_eq!(reward.amount, 100);
}
