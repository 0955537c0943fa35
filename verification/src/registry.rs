//! The registry of premium users, each with a storage canister of their own,
//! and the sign-up of a new premium user as a sequence of steps.
use vstd::prelude::*;

use crate::encoding::{bytes_equal, hex_encode, spec_hex};
use crate::principal::{
    account_identifier, account_identifier_of, anonymous_principal,
    cycles_minting_bytes, cycles_minting_canister, is_principal, principal_text, principal_to_text,
    spec_subaccount, subaccount_of,
};
use crate::text_map::TextMap;

verus! {

/// The memo of a transfer to the cycles minting canister that mints cycles.
pub const MEMO_MINT_CYCLES: u64 = 0x544e494d;

/// The fee, in e8s, paid for the transfer to the cycles minting canister.
pub const TRANSACTION_FEE_E8S: u64 = 1000;

/// The least deposit, in e8s, that a new premium user must have made.
pub const MIN_DEPOSIT_E8S: u64 = 50000;

/// Why a registry request was refused.
#[derive(Debug, PartialEq, Eq, Structural)]
pub enum RegistryError {
    UserIdExists,
    AmountBelowMin,
}

/// Why the cycles minting canister did not top the canister up.
#[derive(Debug)]
pub enum NotifyError {
    Refunded { reason: String, block_index: Option<u64> },
    Processing,
    TransactionTooOld(u64),
    InvalidTransaction(String),
    Other { error_code: u64, error_message: String },
}

/// The reply of the cycles minting canister: the cycles deposited.
pub type NotifyTopUpResult = Result<u128, NotifyError>;

/// The request to top up `canister_id` with the transfer at `block_index`.
#[derive(Debug)]
pub struct NotifyTopUpArg {
    pub block_index: u64,
    pub canister_id: Vec<u8>,
}

/// The premium users, by the text of their principal, each with the text of
/// their storage canister.
pub struct PremiumUsers {
    users: TextMap<String>,
}

impl View for PremiumUsers {
    type V = Map<Seq<char>, Seq<char>>;

    closed spec fn view(&self) -> Map<Seq<char>, Seq<char>> {
        self.users@.map_values(|s: String| s@)
    }
}

/// The account at which `caller` deposits funds for the registry canister
/// `canister_id`: the canister's account under the caller's subaccount.
pub open spec fn deposit_account(canister_id: Seq<u8>, caller: Seq<u8>) -> Seq<u8> {
    account_identifier(canister_id, spec_subaccount(caller))
}

/// Whether the principal `caller` is a premium user.
pub open spec fn is_premium(users: Map<Seq<char>, Seq<char>>, caller: Seq<u8>) -> bool {
    users.contains_key(principal_text(caller))
}

impl PremiumUsers {
    /// The registry's internal consistency.
    pub closed spec fn wf(&self) -> bool {
        self.users.wf()
    }

    /// No premium users.
    pub fn new() -> (u: PremiumUsers)
        ensures
            u.wf(),
            u@ == Map::<Seq<char>, Seq<char>>::empty(),
    {
        let u = PremiumUsers { users: TextMap::new() };
        assert(u@ =~= Map::<Seq<char>, Seq<char>>::empty());
        u
    }

    /// Whether the user with the text `user` is a premium user.
    pub fn contains(&self, user: &String) -> (r: bool)
        requires
            self.wf(),
        ensures
            r == self@.contains_key(user@),
    {
        self.users.contains_key(user)
    }

    /// Records `canister` as the storage canister of `user`.
    pub fn insert(&mut self, user: String, canister: String)
        requires
            old(self).wf(),
        ensures
            final(self).wf(),
            final(self)@ == old(self)@.insert(user@, canister@),
    {
        let ghost before = self@;
        self.users.insert(user, canister);
        assert(self@ =~= before.insert(user@, canister@));
    }
}

/// Whether the principal `caller` is a premium user.
pub fn is_premium_user(users: &PremiumUsers, caller: &[u8]) -> (r: Result<bool, ()>)
    requires
        users.wf(),
        is_principal(caller@),
    ensures
        r == Ok::<bool, ()>(users@.contains_key(principal_text(caller@))),
{
    let text = principal_to_text(caller);
    Ok(users.contains(&text))
}

/// Refuses the anonymous caller with the text "You are anonymous".
pub fn not_anonymous(caller: &[u8]) -> (r: Result<(), String>)
    ensures
        caller@ == seq![4u8] ==> (r matches Err(m) && m@ == "You are anonymous"@),
        caller@ != seq![4u8] ==> r is Ok,
{
    let anonymous = anonymous_principal();
    if bytes_equal(caller, anonymous.as_slice()) {
        return Err(String::from_str("You are anonymous"));
    }
    Ok(())
}

/// The hexadecimal account identifier at which `caller` deposits funds for
/// the canister `canister_id`: the canister's account under the caller's
/// subaccount.
pub fn deposit_address(canister_id: &[u8], caller: &[u8]) -> (r: Result<String, RegistryError>)
    requires
        is_principal(canister_id@),
        is_principal(caller@),
    ensures
        r matches Ok(s) && s@ == spec_hex(account_identifier(canister_id@, spec_subaccount(caller@)))
            && s@.len() == 64,
{
    let sub = subaccount_of(caller);
    let account = account_identifier_of(canister_id, sub.as_slice());
    proof {
        crate::encoding::lemma_hex_len(account@);
    }
    Ok(hex_encode(account.as_slice()))
}

/// Who signs up, and the registry canister that signs them up.
pub struct SignUpContext {
    pub caller: Vec<u8>,
    pub canister_id: Vec<u8>,
}

impl SignUpContext {
    /// Both are principals.
    pub open spec fn valid(&self) -> bool {
        is_principal(self.caller@) && is_principal(self.canister_id@)
    }
}

/// Where a sign-up stands.
#[derive(Debug)]
pub enum SignUpState {
    /// Nothing done yet.
    Start,
    /// The balance of the caller's deposit account was asked for.
    AwaitingBalance,
    /// The deposit was sent to the cycles minting canister.
    AwaitingTransfer,
    /// The cycles minting canister was asked to top the registry up.
    AwaitingTopUp,
    /// A storage canister was asked for.
    AwaitingCanister,
    /// Code is being installed on the storage canister `canister`.
    AwaitingInstall { canister: Vec<u8> },
    /// The caller has had their reply.
    Finished,
}

/// What the outside world answered to the last action.
#[derive(Debug)]
pub enum SignUpEvent {
    /// The sign-up request arrived.
    Begin,
    /// The balance of the deposit account, in e8s.
    Balance { e8s: u64 },
    /// The transfer landed at this block.
    Transferred { block_index: u64 },
    /// The cycles minting canister's reply.
    ToppedUp(NotifyTopUpResult),
    /// The storage canister was created with this principal.
    CanisterCreated { canister: Vec<u8> },
    /// The code was installed on the storage canister.
    CodeInstalled,
}

/// A ledger transfer of the whole deposit to the cycles minting canister.
#[derive(Debug)]
pub struct TransferPlan {
    pub memo: u64,
    pub amount_e8s: u64,
    pub fee_e8s: u64,
    pub from_subaccount: Vec<u8>,
    pub to: Vec<u8>,
}

/// What to do next.
#[derive(Debug)]
pub enum SignUpAction {
    /// Ask the ledger for the balance of this account.
    QueryBalance { account: Vec<u8> },
    /// Make this transfer on the ledger.
    Transfer(TransferPlan),
    /// Ask the cycles minting canister for the top-up.
    NotifyTopUp(NotifyTopUpArg),
    /// Create a canister with these controllers and cycles.
    CreateCanister { controllers: Vec<Vec<u8>>, cycles: u128 },
    /// Install the storage code on this canister, in install mode and with
    /// no argument.
    InstallCode { canister: Vec<u8> },
    /// Reply to the caller; the sign-up is over.
    Reply(Result<String, RegistryError>),
}

/// Which events each state waits for.
pub open spec fn sign_up_accepts(state: SignUpState, event: SignUpEvent) -> bool {
    match state {
        SignUpState::Start => event is Begin,
        SignUpState::AwaitingBalance => event is Balance,
        SignUpState::AwaitingTransfer => event is Transferred,
        SignUpState::AwaitingTopUp => event matches SignUpEvent::ToppedUp(Ok(_)),
        SignUpState::AwaitingCanister => event matches SignUpEvent::CanisterCreated { canister }
            && is_principal(canister@),
        SignUpState::AwaitingInstall { canister } => event is CodeInstalled && is_principal(canister@),
        SignUpState::Finished => false,
    }
}

/// One step of a sign-up: from `users` and `state`, on `event`, to
/// `users_after`, `next` and `action`.
pub open spec fn sign_up_transition(
    users: Map<Seq<char>, Seq<char>>,
    users_after: Map<Seq<char>, Seq<char>>,
    ctx: SignUpContext,
    state: SignUpState,
    event: SignUpEvent,
    next: SignUpState,
    action: SignUpAction,
) -> bool {
    match state {
        SignUpState::Start => {
            &&& users_after == users
            &&& if is_premium(users, ctx.caller@) {
                &&& next is Finished
                &&& action matches SignUpAction::Reply(Err(RegistryError::UserIdExists))
            } else {
                &&& next is AwaitingBalance
                &&& action matches SignUpAction::QueryBalance { account }
                &&& account@ == deposit_account(ctx.canister_id@, ctx.caller@)
            }
        },
        SignUpState::AwaitingBalance => {
            &&& users_after == users
            &&& event matches SignUpEvent::Balance { e8s }
            &&& if e8s < MIN_DEPOSIT_E8S {
                &&& next is Finished
                &&& action matches SignUpAction::Reply(Err(RegistryError::AmountBelowMin))
            } else {
                &&& next is AwaitingTransfer
                &&& action matches SignUpAction::Transfer(plan)
                &&& plan.memo == MEMO_MINT_CYCLES
                &&& plan.amount_e8s == e8s
                &&& plan.fee_e8s == TRANSACTION_FEE_E8S
                &&& plan.from_subaccount@ == spec_subaccount(ctx.caller@)
                &&& plan.to@ == account_identifier(cycles_minting_bytes(), spec_subaccount(ctx.canister_id@))
            }
        },
        SignUpState::AwaitingTransfer => {
            &&& users_after == users
            &&& event matches SignUpEvent::Transferred { block_index }
            &&& next is AwaitingTopUp
            &&& action matches SignUpAction::NotifyTopUp(arg)
            &&& arg.block_index == block_index
            &&& arg.canister_id@ == ctx.canister_id@
        },
        SignUpState::AwaitingTopUp => {
            &&& users_after == users
            &&& event matches SignUpEvent::ToppedUp(Ok(cycles))
            &&& next is AwaitingCanister
            &&& action matches SignUpAction::CreateCanister { controllers, cycles: c }
            &&& c == cycles
            &&& controllers@.len() == 2
            &&& controllers@[0]@ == ctx.caller@
            &&& controllers@[1]@ == ctx.canister_id@
        },
        SignUpState::AwaitingCanister => {
            &&& users_after == users
            &&& event matches SignUpEvent::CanisterCreated { canister }
            &&& next matches SignUpState::AwaitingInstall { canister: c }
            &&& c@ == canister@
            &&& action matches SignUpAction::InstallCode { canister: c2 }
            &&& c2@ == canister@
        },
        SignUpState::AwaitingInstall { canister } => {
            &&& users_after == users.insert(principal_text(ctx.caller@), principal_text(canister@))
            &&& next is Finished
            &&& action matches SignUpAction::Reply(Ok(id))
            &&& id@ == principal_text(canister@)
        },
        SignUpState::Finished => false,
    }
}

/// Takes one step of the sign-up of `ctx.caller`: decides from the state and
/// what the outside world answered what to do next. The premium users change
/// only when the storage canister is ready, by recording it for the caller.
pub fn sign_up_step(users: &mut PremiumUsers, ctx: &SignUpContext, state: SignUpState, event: SignUpEvent) -> (r: (
    SignUpState,
    SignUpAction,
))
    requires
        old(users).wf(),
        ctx.valid(),
        sign_up_accepts(state, event),
    ensures
        final(users).wf(),
        sign_up_transition(old(users)@, final(users)@, *ctx, state, event, r.0, r.1),
{
    match state {
        SignUpState::Start => {
            let caller_text = principal_to_text(ctx.caller.as_slice());
            if users.contains(&caller_text) {
                (SignUpState::Finished, SignUpAction::Reply(Err(RegistryError::UserIdExists)))
            } else {
                let sub = subaccount_of(ctx.caller.as_slice());
                let account = account_identifier_of(ctx.canister_id.as_slice(), sub.as_slice());
                (SignUpState::AwaitingBalance, SignUpAction::QueryBalance { account })
            }
        },
        SignUpState::AwaitingBalance => {
            let e8s: u64 = match event {
                SignUpEvent::Balance { e8s } => e8s,
                _ => {
                    proof {
                        assert(false);
                    }
                    0
                },
            };
            if e8s < MIN_DEPOSIT_E8S {
                (SignUpState::Finished, SignUpAction::Reply(Err(RegistryError::AmountBelowMin)))
            } else {
                let from_subaccount = subaccount_of(ctx.caller.as_slice());
                let cmc = cycles_minting_canister();
                let cmc_sub = subaccount_of(ctx.canister_id.as_slice());
                let to = account_identifier_of(cmc.as_slice(), cmc_sub.as_slice());
                let plan = TransferPlan {
                    memo: MEMO_MINT_CYCLES,
                    amount_e8s: e8s,
                    fee_e8s: TRANSACTION_FEE_E8S,
                    from_subaccount,
                    to,
                };
                (SignUpState::AwaitingTransfer, SignUpAction::Transfer(plan))
            }
        },
        SignUpState::AwaitingTransfer => {
            let block_index: u64 = match event {
                SignUpEvent::Transferred { block_index } => block_index,
                _ => {
                    proof {
                        assert(false);
                    }
                    0
                },
            };
            let arg = NotifyTopUpArg { block_index, canister_id: ctx.canister_id.clone() };
            (SignUpState::AwaitingTopUp, SignUpAction::NotifyTopUp(arg))
        },
        SignUpState::AwaitingTopUp => {
            let cycles: u128 = match event {
                SignUpEvent::ToppedUp(Ok(cycles)) => cycles,
                _ => {
                    proof {
                        assert(false);
                    }
                    0
                },
            };
            let mut controllers: Vec<Vec<u8>> = Vec::new();
            controllers.push(ctx.caller.clone());
            controllers.push(ctx.canister_id.clone());
            (SignUpState::AwaitingCanister, SignUpAction::CreateCanister { controllers, cycles })
        },
        SignUpState::AwaitingCanister => {
            let canister = match event {
                SignUpEvent::CanisterCreated { canister } => canister,
                _ => {
                    proof {
                        assert(false);
                    }
                    Vec::new()
                },
            };
            let install = canister.clone();
            (SignUpState::AwaitingInstall { canister }, SignUpAction::InstallCode { canister: install })
        },
        SignUpState::AwaitingInstall { canister } => {
            let caller_text = principal_to_text(ctx.caller.as_slice());
            let canister_text = principal_to_text(canister.as_slice());
            users.insert(caller_text, canister_text.clone());
            (SignUpState::Finished, SignUpAction::Reply(Ok(canister_text)))
        },
        SignUpState::Finished => {
            proof {
                assert(false);
            }
            (SignUpState::Finished, SignUpAction::Reply(Err(RegistryError::UserIdExists)))
        },
    }
}

/// A finished sign-up waits for nothing more.
pub proof fn lemma_finished_is_final(event: SignUpEvent)
    ensures
        !sign_up_accepts(SignUpState::Finished, event),
{
}

/// The premium users change only at the step that completes a sign-up.
pub proof fn lemma_users_change_only_at_install(
    users: Map<Seq<char>, Seq<char>>,
    users_after: Map<Seq<char>, Seq<char>>,
    ctx: SignUpContext,
    state: SignUpState,
    event: SignUpEvent,
    next: SignUpState,
    action: SignUpAction,
)
    requires
        sign_up_transition(users, users_after, ctx, state, event, next, action),
        !(state is AwaitingInstall),
    ensures
        users_after == users,
{
}

/// The balance that a sign-up checks is that of the account whose
/// hexadecimal text `deposit_address` shows the caller.
pub proof fn lemma_balance_checked_at_deposit_address(
    users: Map<Seq<char>, Seq<char>>,
    users_after: Map<Seq<char>, Seq<char>>,
    ctx: SignUpContext,
    next: SignUpState,
    action: SignUpAction,
)
    requires
        !is_premium(users, ctx.caller@),
        sign_up_transition(users, users_after, ctx, SignUpState::Start, SignUpEvent::Begin, next, action),
    ensures
        action matches SignUpAction::QueryBalance { account } && spec_hex(account@) == spec_hex(
            deposit_account(ctx.canister_id@, ctx.caller@),
        ),
{
}

/// Once a sign-up completes, the caller is a premium user whose storage
/// canister is the new one, and a further sign-up by the same caller is
/// refused with `UserIdExists` and changes nothing.
pub proof fn lemma_signed_up_user_is_premium(
    users: Map<Seq<char>, Seq<char>>,
    users_after: Map<Seq<char>, Seq<char>>,
    users_again: Map<Seq<char>, Seq<char>>,
    ctx: SignUpContext,
    canister: Vec<u8>,
    next: SignUpState,
    action: SignUpAction,
    next_again: SignUpState,
    action_again: SignUpAction,
)
    requires
        sign_up_transition(
            users,
            users_after,
            ctx,
            SignUpState::AwaitingInstall { canister },
            SignUpEvent::CodeInstalled,
            next,
            action,
        ),
        sign_up_transition(users_after, users_again, ctx, SignUpState::Start, SignUpEvent::Begin, next_again, action_again),
    ensures
        is_premium(users_after, ctx.caller@),
        users_after[principal_text(ctx.caller@)] == principal_text(canister@),
        action_again matches SignUpAction::Reply(Err(RegistryError::UserIdExists)),
        next_again is Finished,
        users_again == users_after,
{
}

/// A sign-up by a caller who is not yet premium and has deposited at least
/// the minimum, carried through all its steps, replies with the text of the
/// new storage canister and records it as the caller's, changing nothing
/// else.
pub proof fn lemma_sign_up_run(
    u0: Map<Seq<char>, Seq<char>>,
    u1: Map<Seq<char>, Seq<char>>,
    u2: Map<Seq<char>, Seq<char>>,
    u3: Map<Seq<char>, Seq<char>>,
    u4: Map<Seq<char>, Seq<char>>,
    u5: Map<Seq<char>, Seq<char>>,
    u6: Map<Seq<char>, Seq<char>>,
    ctx: SignUpContext,
    e8s: u64,
    block_index: u64,
    cycles: u128,
    canister: Vec<u8>,
    s1: SignUpState,
    s2: SignUpState,
    s3: SignUpState,
    s4: SignUpState,
    s5: SignUpState,
    s6: SignUpState,
    a1: SignUpAction,
    a2: SignUpAction,
    a3: SignUpAction,
    a4: SignUpAction,
    a5: SignUpAction,
    a6: SignUpAction,
)
    requires
        !u0.contains_key(principal_text(ctx.caller@)),
        e8s >= 50000,
        sign_up_transition(u0, u1, ctx, SignUpState::Start, SignUpEvent::Begin, s1, a1),
        sign_up_transition(u1, u2, ctx, s1, SignUpEvent::Balance { e8s }, s2, a2),
        sign_up_transition(u2, u3, ctx, s2, SignUpEvent::Transferred { block_index }, s3, a3),
        sign_up_transition(u3, u4, ctx, s3, SignUpEvent::ToppedUp(Ok(cycles)), s4, a4),
        sign_up_transition(u4, u5, ctx, s4, SignUpEvent::CanisterCreated { canister }, s5, a5),
        sign_up_transition(u5, u6, ctx, s5, SignUpEvent::CodeInstalled, s6, a6),
    ensures
        a1 matches SignUpAction::QueryBalance { account } && account@ == account_identifier(
            ctx.canister_id@,
            spec_subaccount(ctx.caller@),
        ),
        a2 matches SignUpAction::Transfer(plan) && plan.amount_e8s == e8s && plan.memo == 0x544e494d
            && plan.fee_e8s == 1000 && plan.from_subaccount@ == spec_subaccount(ctx.caller@)
            && plan.to@ == account_identifier(
            seq![0u8, 0u8, 0u8, 0u8, 0u8, 0u8, 0u8, 4u8, 1u8, 1u8],
            spec_subaccount(ctx.canister_id@),
        ),
        a3 matches SignUpAction::NotifyTopUp(arg) && arg.block_index == block_index
            && arg.canister_id@ == ctx.canister_id@,
        a4 matches SignUpAction::CreateCanister { controllers, cycles: c } && c == cycles
            && controllers@.len() == 2 && controllers@[0]@ == ctx.caller@ && controllers@[1]@
            == ctx.canister_id@,
        a5 matches SignUpAction::InstallCode { canister: c } && c@ == canister@,
        u6 == u0.insert(principal_text(ctx.caller@), principal_text(canister@)),
        a6 matches SignUpAction::Reply(Ok(id)) && id@ == principal_text(canister@),
        s6 is Finished,
{
}

/// A principal is a premium user exactly when the registry holds its text.
pub proof fn lemma_premium_exactly_registered(users: Map<Seq<char>, Seq<char>>, caller: Seq<u8>)
    ensures
        is_premium(users, caller) <==> users.contains_key(principal_text(caller)),
        !is_premium(Map::<Seq<char>, Seq<char>>::empty(), caller),
{
}

/// The deposit account of a caller is the registry canister's account under
/// the caller's subaccount.
pub proof fn lemma_deposit_account_is_subaccount(canister_id: Seq<u8>, caller: Seq<u8>)
    ensures
        deposit_account(canister_id, caller) == account_identifier(canister_id, spec_subaccount(caller)),
{
}

/// The first step of a sign-up changes no user. A caller whose text the
/// registry holds is refused with `UserIdExists`; any other caller has the
/// balance asked for at the registry's account under the caller's
/// subaccount.
pub proof fn lemma_sign_up_begins(
    users: Map<Seq<char>, Seq<char>>,
    users_after: Map<Seq<char>, Seq<char>>,
    ctx: SignUpContext,
    next: SignUpState,
    action: SignUpAction,
)
    requires
        sign_up_transition(users, users_after, ctx, SignUpState::Start, SignUpEvent::Begin, next, action),
    ensures
        users_after == users,
        users.contains_key(principal_text(ctx.caller@)) ==> (next is Finished && action matches SignUpAction::Reply(
            Err(RegistryError::UserIdExists),
        )),
        !users.contains_key(principal_text(ctx.caller@)) ==> next is AwaitingBalance,
        !users.contains_key(principal_text(ctx.caller@)) ==> (action matches SignUpAction::QueryBalance { account }
            && account@ == account_identifier(ctx.canister_id@, spec_subaccount(ctx.caller@))),
{
}

/// A balance below 50000 e8s ends the sign-up with `AmountBelowMin` and
/// changes no user.
pub proof fn lemma_sign_up_refuses_small_deposit(
    users: Map<Seq<char>, Seq<char>>,
    users_after: Map<Seq<char>, Seq<char>>,
    ctx: SignUpContext,
    e8s: u64,
    next: SignUpState,
    action: SignUpAction,
)
    requires
        e8s < 50000,
        sign_up_transition(users, users_after, ctx, SignUpState::AwaitingBalance, SignUpEvent::Balance { e8s }, next, action),
    ensures
        users_after == users,
        next is Finished,
        action matches SignUpAction::Reply(Err(RegistryError::AmountBelowMin)),
{
}

/// A balance of at least 50000 e8s is sent whole, from the caller's
/// subaccount of the registry, to the cycles minting canister's account under
/// the registry's subaccount, with the minting memo and a fee of 1000 e8s.
pub proof fn lemma_sign_up_sends_whole_deposit(
    users: Map<Seq<char>, Seq<char>>,
    users_after: Map<Seq<char>, Seq<char>>,
    ctx: SignUpContext,
    e8s: u64,
    next: SignUpState,
    action: SignUpAction,
)
    requires
        e8s >= 50000,
        sign_up_transition(users, users_after, ctx, SignUpState::AwaitingBalance, SignUpEvent::Balance { e8s }, next, action),
    ensures
        users_after == users,
        next is AwaitingTransfer,
        action matches SignUpAction::Transfer(plan) && plan.amount_e8s == e8s && plan.memo == 0x544e494d
            && plan.fee_e8s == 1000 && plan.from_subaccount@ == spec_subaccount(ctx.caller@)
            && plan.to@ == account_identifier(
            seq![0u8, 0u8, 0u8, 0u8, 0u8, 0u8, 0u8, 4u8, 1u8, 1u8],
            spec_subaccount(ctx.canister_id@),
        ),
{
}

/// The account whose balance a sign-up checks is the account that the
/// following transfer takes the deposit from.
pub proof fn lemma_balance_checked_where_deposit_is_taken(
    users: Map<Seq<char>, Seq<char>>,
    u1: Map<Seq<char>, Seq<char>>,
    u2: Map<Seq<char>, Seq<char>>,
    ctx: SignUpContext,
    e8s: u64,
    s1: SignUpState,
    s2: SignUpState,
    a1: SignUpAction,
    a2: SignUpAction,
)
    requires
        sign_up_transition(users, u1, ctx, SignUpState::Start, SignUpEvent::Begin, s1, a1),
        sign_up_transition(u1, u2, ctx, s1, SignUpEvent::Balance { e8s }, s2, a2),
        a2 is Transfer,
    ensures
        a1 matches SignUpAction::QueryBalance { account } && a2 matches SignUpAction::Transfer(plan)
            && account@ == account_identifier(ctx.canister_id@, plan.from_subaccount@),
{
}

/// Once the transfer lands, the cycles minting canister is asked to top the
/// registry up with the transfer at that block.
pub proof fn lemma_sign_up_notifies_top_up(
    users: Map<Seq<char>, Seq<char>>,
    users_after: Map<Seq<char>, Seq<char>>,
    ctx: SignUpContext,
    block_index: u64,
    next: SignUpState,
    action: SignUpAction,
)
    requires
        sign_up_transition(
            users,
            users_after,
            ctx,
            SignUpState::AwaitingTransfer,
            SignUpEvent::Transferred { block_index },
            next,
            action,
        ),
    ensures
        users_after == users,
        next is AwaitingTopUp,
        action matches SignUpAction::NotifyTopUp(arg) && arg.block_index == block_index
            && arg.canister_id@ == ctx.canister_id@,
{
}

/// The storage canister is created with all the cycles of the top-up, under
/// the control of the caller and of the registry.
pub proof fn lemma_sign_up_creates_with_all_cycles(
    users: Map<Seq<char>, Seq<char>>,
    users_after: Map<Seq<char>, Seq<char>>,
    ctx: SignUpContext,
    cycles: u128,
    next: SignUpState,
    action: SignUpAction,
)
    requires
        sign_up_transition(
            users,
            users_after,
            ctx,
            SignUpState::AwaitingTopUp,
            SignUpEvent::ToppedUp(Ok(cycles)),
            next,
            action,
        ),
    ensures
        users_after == users,
        next is AwaitingCanister,
        action matches SignUpAction::CreateCanister { controllers, cycles: c } && c == cycles
            && controllers@.len() == 2 && controllers@[0]@ == ctx.caller@ && controllers@[1]@
            == ctx.canister_id@,
{
}

/// The code is installed on the canister that was created, and the sign-up
/// waits on that same canister.
pub proof fn lemma_sign_up_installs_on_new_canister(
    users: Map<Seq<char>, Seq<char>>,
    users_after: Map<Seq<char>, Seq<char>>,
    ctx: SignUpContext,
    canister: Vec<u8>,
    next: SignUpState,
    action: SignUpAction,
)
    requires
        sign_up_transition(
            users,
            users_after,
            ctx,
            SignUpState::AwaitingCanister,
            SignUpEvent::CanisterCreated { canister },
            next,
            action,
        ),
    ensures
        users_after == users,
        next matches SignUpState::AwaitingInstall { canister: c } && c@ == canister@,
        action matches SignUpAction::InstallCode { canister: c } && c@ == canister@,
{
}

/// Once the code is installed, the caller's text is recorded with the text of
/// the storage canister, nothing else changes, and the reply is that text.
pub proof fn lemma_sign_up_records_canister(
    users: Map<Seq<char>, Seq<char>>,
    users_after: Map<Seq<char>, Seq<char>>,
    ctx: SignUpContext,
    canister: Vec<u8>,
    next: SignUpState,
    action: SignUpAction,
)
    requires
        sign_up_transition(
            users,
            users_after,
            ctx,
            SignUpState::AwaitingInstall { canister },
            SignUpEvent::CodeInstalled,
            next,
            action,
        ),
    ensures
        users_after == users.insert(principal_text(ctx.caller@), principal_text(canister@)),
        users_after.contains_key(principal_text(ctx.caller@)),
        next is Finished,
        action matches SignUpAction::Reply(Ok(id)) && id@ == principal_text(canister@),
{
}

} // verus!
