use candid::Principal;
use formchain::registry::{
    deposit_address, is_premium_user, not_anonymous, sign_up_step, NotifyError, PremiumUsers, RegistryError,
    SignUpAction, SignUpContext, SignUpEvent, SignUpState, MEMO_MINT_CYCLES, TRANSACTION_FEE_E8S,
};
use ic_ledger_types::{AccountIdentifier, Subaccount, MAINNET_CYCLES_MINTING_CANISTER_ID};

const CALLER: [u8; 5] = [1, 2, 3, 4, 5];
const REGISTRY: [u8; 10] = [0, 0, 0, 0, 0, 0, 0, 9, 1, 1];
const STORAGE: [u8; 10] = [0, 0, 0, 0, 0, 0, 0, 12, 1, 1];

fn ctx() -> SignUpContext {
    SignUpContext { caller: CALLER.to_vec(), canister_id: REGISTRY.to_vec() }
}

fn account(owner: &[u8], sub_of: &[u8]) -> Vec<u8> {
    let sub = Subaccount::from(Principal::from_slice(sub_of));
    AccountIdentifier::new(&Principal::from_slice(owner), &sub).as_ref().to_vec()
}

#[test]
fn anonymous_caller_is_refused() {
    assert_eq!(not_anonymous(Principal::anonymous().as_slice()), Err("You are anonymous".to_string()));
    assert_eq!(not_anonymous(&CALLER), Ok(()));
    assert_eq!(not_anonymous(&[]), Ok(()));
}

#[test]
fn deposit_address_is_hex_account() {
    let expected = AccountIdentifier::new(&Principal::from_slice(&REGISTRY), &Subaccount::from(Principal::from_slice(&CALLER)))
        .to_hex();
    assert_eq!(deposit_address(&REGISTRY, &CALLER).unwrap(), expected);
    assert_eq!(expected.len(), 64);
}

#[test]
fn new_user_is_not_premium() {
    let users = PremiumUsers::new();
    assert_eq!(is_premium_user(&users, &CALLER), Ok(false));
}

#[test]
fn full_sign_up() {
    let mut users = PremiumUsers::new();
    let ctx = ctx();
    let (state, action) = sign_up_step(&mut users, &ctx, SignUpState::Start, SignUpEvent::Begin);
    match action {
        SignUpAction::QueryBalance { account: a } => assert_eq!(a, account(&REGISTRY, &CALLER)),
        other => panic!("unexpected {:?}", other),
    }
    let (state, action) = sign_up_step(&mut users, &ctx, state, SignUpEvent::Balance { e8s: 70000 });
    match action {
        SignUpAction::Transfer(plan) => {
            assert_eq!(plan.memo, MEMO_MINT_CYCLES);
            assert_eq!(plan.memo, 0x544e494d);
            assert_eq!(plan.amount_e8s, 70000);
            assert_eq!(plan.fee_e8s, TRANSACTION_FEE_E8S);
            assert_eq!(plan.fee_e8s, 1000);
            assert_eq!(plan.from_subaccount, Subaccount::from(Principal::from_slice(&CALLER)).0.to_vec());
            assert_eq!(plan.to, account(MAINNET_CYCLES_MINTING_CANISTER_ID.as_slice(), &REGISTRY));
        },
        other => panic!("unexpected {:?}", other),
    }
    let (state, action) = sign_up_step(&mut users, &ctx, state, SignUpEvent::Transferred { block_index: 42 });
    match action {
        SignUpAction::NotifyTopUp(arg) => {
            assert_eq!(arg.block_index, 42);
            assert_eq!(arg.canister_id, REGISTRY.to_vec());
        },
        other => panic!("unexpected {:?}", other),
    }
    let (state, action) = sign_up_step(&mut users, &ctx, state, SignUpEvent::ToppedUp(Ok(5_000_000)));
    match action {
        SignUpAction::CreateCanister { controllers, cycles } => {
            assert_eq!(cycles, 5_000_000);
            assert_eq!(controllers, vec![CALLER.to_vec(), REGISTRY.to_vec()]);
        },
        other => panic!("unexpected {:?}", other),
    }
    let (state, action) =
        sign_up_step(&mut users, &ctx, state, SignUpEvent::CanisterCreated { canister: STORAGE.to_vec() });
    match action {
        SignUpAction::InstallCode { canister } => assert_eq!(canister, STORAGE.to_vec()),
        other => panic!("unexpected {:?}", other),
    }
    assert_eq!(is_premium_user(&users, &CALLER), Ok(false));
    let (state, action) = sign_up_step(&mut users, &ctx, state, SignUpEvent::CodeInstalled);
    assert!(matches!(state, SignUpState::Finished));
    match action {
        SignUpAction::Reply(Ok(id)) => assert_eq!(id, Principal::from_slice(&STORAGE).to_text()),
        other => panic!("unexpected {:?}", other),
    }
    assert_eq!(is_premium_user(&users, &CALLER), Ok(true));
    assert!(users.contains(&Principal::from_slice(&CALLER).to_text()));

    // A second sign-up by the same caller is refused.
    let (state, action) = sign_up_step(&mut users, &ctx, SignUpState::Start, SignUpEvent::Begin);
    assert!(matches!(state, SignUpState::Finished));
    assert!(matches!(action, SignUpAction::Reply(Err(RegistryError::UserIdExists))));
}

#[test]
fn small_deposit_is_refused() {
    let mut users = PremiumUsers::new();
    let ctx = ctx();
    let (state, _) = sign_up_step(&mut users, &ctx, SignUpState::Start, SignUpEvent::Begin);
    let (state, action) = sign_up_step(&mut users, &ctx, state, SignUpEvent::Balance { e8s: 49999 });
    assert!(matches!(state, SignUpState::Finished));
    assert!(matches!(action, SignUpAction::Reply(Err(RegistryError::AmountBelowMin))));
    assert_eq!(is_premium_user(&users, &CALLER), Ok(false));
}

#[test]
fn minimum_deposit_is_accepted() {
    let mut users = PremiumUsers::new();
    let ctx = ctx();
    let (state, _) = sign_up_step(&mut users, &ctx, SignUpState::Start, SignUpEvent::Begin);
    let (state, action) = sign_up_step(&mut users, &ctx, state, SignUpEvent::Balance { e8s: 50000 });
    assert!(matches!(state, SignUpState::AwaitingTransfer));
    assert!(matches!(action, SignUpAction::Transfer(_)));
}

#[test]
fn registered_user_text_key() {
    let mut users = PremiumUsers::new();
    users.insert(Principal::from_slice(&CALLER).to_text(), "x".to_string());
    assert_eq!(is_premium_user(&users, &CALLER), Ok(true));
    let (_, action) = sign_up_step(&mut users, &ctx(), SignUpState::Start, SignUpEvent::Begin);
    assert!(matches!(action, SignUpAction::Reply(Err(RegistryError::UserIdExists))));
    let _unused: Option<NotifyError> = None;
}

#[test]
fn balance_is_checked_at_deposit_address() {
    let mut users = PremiumUsers::new();
    let (_, action) = sign_up_step(&mut users, &ctx(), SignUpState::Start, SignUpEvent::Begin);
    match action {
        SignUpAction::QueryBalance { account } => {
            assert_eq!(hex::encode(account), deposit_address(&REGISTRY, &CALLER).unwrap());
        },
        other => panic!("unexpected {:?}", other),
    }
}

#[test]
fn refused_sign_up_changes_no_user() {
    let mut users = PremiumUsers::new();
    let other = vec![7u8, 7, 7];
    users.insert(Principal::from_slice(&other).to_text(), "y".to_string());
    let (_, _) = sign_up_step(&mut users, &ctx(), SignUpState::Start, SignUpEvent::Begin);
    assert_eq!(is_premium_user(&users, &CALLER), Ok(false));
    assert_eq!(is_premium_user(&users, &other), Ok(true));
}

#[test]
fn deposit_addresses_differ_between_callers() {
    let a = deposit_address(&REGISTRY, &CALLER).unwrap();
    let b = deposit_address(&REGISTRY, &[1, 2, 3, 4, 6]).unwrap();
    assert_ne!(a, b);
    assert_eq!(b.len(), 64);
    assert!(a.chars().all(|c| c.is_ascii_digit() || ('a'..='f').contains(&c)));
}
