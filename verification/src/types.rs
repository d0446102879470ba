//! The records the offering rules keep: offerings, pending requests,
//! per-account release books and time locks, and the runtime's constants.

use vstd::prelude::*;

verus! {

/// An account of the runtime.
pub type AccountId = u64;
/// An asset of the multi-currency ledger.
pub type CurrencyId = u32;
/// An amount of any asset.
pub type Balance = u128;
/// A block height.
pub type BlockNumber = u64;

/// The nationalities the know-your-customer check distinguishes.
#[derive(Clone, Copy, Debug, PartialEq, Eq, Structural)]
pub enum Countries {
    China,
    USA,
}

impl Default for Countries {
    fn default() -> (r: Self)
        ensures
            r == Countries::China,
    {
        Countries::China
    }
}

/// Well-known assets, and any other by its number.
#[derive(Clone, Copy, Debug, PartialEq, Eq, Structural, PartialOrd, Ord)]
pub enum CurrencyIds {
    BTC,
    ETH,
    USDT,
    DOT,
    KSM,
    LT,
    Id(u32),
}

impl Default for CurrencyIds {
    fn default() -> (r: Self)
        ensures
            r == CurrencyIds::LT,
    {
        CurrencyIds::LT
    }
}

/// The asset number of a well-known asset.
pub open spec fn spec_currency_ids_number(c: CurrencyIds) -> u32 {
    match c {
        CurrencyIds::LT => 0,
        CurrencyIds::BTC => 1,
        CurrencyIds::ETH => 2,
        CurrencyIds::USDT => 3,
        CurrencyIds::DOT => 4,
        CurrencyIds::KSM => 5,
        CurrencyIds::Id(x) => x,
    }
}

impl From<CurrencyIds> for u32 {
    fn from(c: CurrencyIds) -> (r: u32) {
        match c {
            CurrencyIds::LT => 0,
            CurrencyIds::BTC => 1,
            CurrencyIds::ETH => 2,
            CurrencyIds::USDT => 3,
            CurrencyIds::DOT => 4,
            CurrencyIds::KSM => 5,
            CurrencyIds::Id(x) => x,
        }
    }
}

impl vstd::std_specs::convert::FromSpecImpl<CurrencyIds> for u32 {
    open spec fn obeys_from_spec() -> bool {
        true
    }

    open spec fn from_spec(c: CurrencyIds) -> u32 {
        spec_currency_ids_number(c)
    }
}

/// A proportion in whole hundredths, at most one hundred of them.
#[derive(Clone, Copy, Debug, PartialEq, Eq, Structural)]
pub struct Percent {
    parts: u8,
}

impl View for Percent {
    type V = nat;

    closed spec fn view(&self) -> nat {
        self.parts as nat
    }
}

impl Percent {
    #[verifier::type_invariant]
    spec fn inv(self) -> bool {
        self.parts <= 100
    }

    /// The proportion of `x` hundredths, clamped at one hundred.
    pub fn from_percent(x: u8) -> (r: Self)
        ensures
            r@ == if x > 100 { 100 } else { x as nat },
    {
        Percent { parts: if x > 100 { 100 } else { x } }
    }

    /// The number of hundredths.
    pub fn deconstruct(&self) -> (r: u8)
        ensures
            r == self@,
            r <= 100,
    {
        proof { use_type_invariant(self); }
        self.parts
    }

    /// The nothing proportion.
    pub fn zero() -> (r: Self)
        ensures
            r@ == 0,
    {
        Percent { parts: 0 }
    }

    /// Two proportions are equal exactly when they hold as many hundredths.
    pub proof fn lemma_view_injective(a: Self, b: Self)
        requires
            a@ == b@,
        ensures
            a == b,
    {
    }
}

/// The reward multiplier granted when the native currency is paid in.
#[derive(Clone, Copy, Debug, PartialEq, Eq, Structural)]
pub struct IcoMultiple {
    pub numerator: u32,
    pub denominator: u32,
}

impl Default for IcoMultiple {
    fn default() -> (r: Self)
        ensures
            r.numerator == 20,
            r.denominator == 10,
    {
        IcoMultiple { numerator: 20, denominator: 10 }
    }
}

/// A request of a project to release a larger share of what it raised.
#[derive(Clone, Copy, Debug, PartialEq, Eq, Structural)]
pub struct Release {
    pub who: AccountId,
    pub currency_id: CurrencyId,
    pub index: u32,
    pub request_time: BlockNumber,
    pub percent: Percent,
    pub pledge: Balance,
}

/// Released tokens that are still locked and free up over time.
#[derive(Clone, Copy, Debug, PartialEq, Eq, Structural)]
pub struct IcoLock {
    pub start_block: BlockNumber,
    pub index: u32,
    pub total_amount: Balance,
    pub unlock_amount: Balance,
    pub unlock_duration: BlockNumber,
    pub per_duration_unlock_amount: Balance,
}

/// What a project submits to start an offering.
#[derive(Debug)]
pub struct IcoParameters {
    pub currency_id: CurrencyId,
    pub logo_url: Vec<u8>,
    pub official_website: Vec<u8>,
    pub user_ico_max_count: u8,
    pub is_must_kyc: bool,
    pub total_issuance: Balance,
    pub total_circulation: Balance,
    pub ico_duration: BlockNumber,
    pub total_ico_amount: Balance,
    pub user_min_amount: Balance,
    pub user_max_amount: Balance,
    pub exchange_token: CurrencyId,
    pub total_exchange_amount: Balance,
    pub exclude_nation: Vec<Countries>,
    pub lock_proportion: Percent,
    pub unlock_duration: BlockNumber,
    pub per_duration_unlock_amount: Balance,
}

/// What an account holds, and has released, of one offering.
#[derive(Debug)]
pub struct UnRelease {
    pub currency_id: CurrencyId,
    pub index: u32,
    pub unreleased_currency_id: CurrencyId,
    pub total_usdt: Balance,
    pub tags: Vec<(Balance, Balance)>,
    pub total: Balance,
    pub released: Balance,
    pub is_terminated: bool,
    pub is_already_get_reward: Option<bool>,
}

/// The mathematical value of an account's book of one offering.
pub struct UnReleaseView {
    pub currency_id: CurrencyId,
    pub index: u32,
    pub unreleased_currency_id: CurrencyId,
    pub total_usdt: Balance,
    pub tags: Seq<(Balance, Balance)>,
    pub total: Balance,
    pub released: Balance,
    pub is_terminated: bool,
    pub is_already_get_reward: Option<bool>,
}

impl View for UnRelease {
    type V = UnReleaseView;

    open spec fn view(&self) -> UnReleaseView {
        UnReleaseView {
            currency_id: self.currency_id,
            index: self.index,
            unreleased_currency_id: self.unreleased_currency_id,
            total_usdt: self.total_usdt,
            tags: self.tags@,
            total: self.total,
            released: self.released,
            is_terminated: self.is_terminated,
            is_already_get_reward: self.is_already_get_reward,
        }
    }
}

/// An offering waiting for approval, with the pledge its initiator put up.
#[derive(Debug)]
pub struct PendingInfo {
    pub ico: IcoInfo,
    pub pledge: Balance,
}

/// An offering.
#[derive(Debug)]
pub struct IcoInfo {
    pub start_time: Option<BlockNumber>,
    pub is_already_kyc: bool,
    pub initiator: AccountId,
    pub total_usdt: Balance,
    pub is_terminated: bool,
    pub project_name: Vec<u8>,
    pub token_symbol: Vec<u8>,
    pub decimals: u8,
    pub index: Option<u32>,
    pub already_released_proportion: Percent,
    pub currency_id: CurrencyId,
    pub logo_url: Vec<u8>,
    pub official_website: Vec<u8>,
    pub user_ico_max_count: u8,
    pub is_must_kyc: bool,
    pub total_issuance: Balance,
    pub total_circulation: Balance,
    pub ico_duration: BlockNumber,
    pub total_ico_amount: Balance,
    pub user_min_amount: Balance,
    pub user_max_amount: Balance,
    pub exchange_token: CurrencyId,
    pub total_exchange_amount: Balance,
    pub exclude_nation: Vec<Countries>,
    pub lock_proportion: Percent,
    pub unlock_duration: BlockNumber,
    pub per_duration_unlock_amount: Balance,
}

/// The name, symbol and precision registered for an asset.
#[derive(Debug)]
pub struct AssetMetadata {
    pub name: Vec<u8>,
    pub symbol: Vec<u8>,
    pub decimals: u8,
}

/// Who sends a call.
#[derive(Clone, Copy, Debug, PartialEq, Eq, Structural)]
pub enum Origin {
    Root,
    Signed(AccountId),
    Unsigned,
}

/// Which origins a privileged call accepts: the root origin, if `allow_root`,
/// and the accounts listed in `members`.
#[derive(Debug)]
pub struct OriginRule {
    pub allow_root: bool,
    pub members: Vec<AccountId>,
}

/// The runtime's constants for offerings.
#[derive(Debug)]
pub struct Config {
    pub min_proportion: Percent,
    pub native_currency_id: CurrencyId,
    pub initiator_pledge: Balance,
    pub request_pledge: Balance,
    pub request_expire: BlockNumber,
    pub native_multiple: IcoMultiple,
    pub ico_total_reward: Balance,
    pub permit_release_origin: OriginRule,
    pub terminate_ico_origin: OriginRule,
}

/// What the calls report.
#[derive(Clone, Copy, Debug, PartialEq, Eq, Structural)]
pub enum Event {
    Test(AccountId),
    InitiateIco(AccountId, CurrencyId, Balance),
    PermitIco(AccountId, CurrencyId),
    RejectIco(AccountId, CurrencyId),
    Join(AccountId, CurrencyId, u32, Balance, Balance),
    TerminateIco(CurrencyId, u32),
    RequestRelease(CurrencyId, u32, Percent),
    CancelRequest(CurrencyId, u32),
    PermitRelease(CurrencyId, u32, Release),
    UnlockAsset(CurrencyId, AccountId, Balance),
    GetReward(CurrencyId, u32, AccountId, Balance),
    UserReleaseIcoAmount(CurrencyId, u32, Balance),
    InitiatorSetIcoAmountBound(CurrencyId, u32, Balance, Balance),
    SetSystemIcoAmountBound(Balance, Balance),
    SetIcoMaxCount(CurrencyId, u32, u8),
    TerminatedGiveBackAmount(AccountId, CurrencyId, u32, Balance),
    UnreservedInitiatorRemainPledgeAmount(CurrencyId, u32, Balance),
}

/// The rules' own refusals.
#[derive(Clone, Copy, Debug, PartialEq, Eq, Structural)]
pub enum Error {
    Test,
    BeingIco,
    AmountTooLow,
    PendingIcoNotExists,
    IcoNotExists,
    InExcludeNation,
    BadOrigin,
    IsPendingIco,
    AmountTooLowOrTooBig,
    JoinIcoDuplicate,
    InitiatorYourself,
    CurrencyIdErr,
    AmountIsZero,
    TokenShouldBeDifferent,
    AmountErr,
    MaxAmountTooLow,
    AmountTooBig,
    MinAmountTooBig,
    RewardAmountIsZero,
    DurationIsZero,
    LockParaErr,
    IcoExpire,
    IcoNotExpireOrTerminated,
    Icoterminated,
    NotInitiator,
    AlreadyRequest,
    RequestNotExists,
    RequestExpire,
    AssetsInfoNotExists,
    LockIsEmpty,
    UnlockAmountIsZero,
    RewardPlanNotExists,
    CanNotReserve,
    ReservedBalanceNotEnough,
    TokenIsDICO,
    UnReleaseAssetsNotExists,
    NotIcoMember,
    DenominatorIsZero,
    Overflow,
    ProportionTooLow,
    UnreleaseAmountIsZero,
    RewardIsZero,
    MaxCountIsZero,
    IcoCountToMax,
    MaxCountErr,
    NativeCurrencyId,
    UnreleasedAmountIsZero,
    MinOrMaxIcoAmountSetErr,
    AmountNot,
    AmountNotMeetProjectRequirement,
    AmountNotMeetSystemRequirement,
    /// The reward of this offering was already taken.
    AlreadyGetReward,
}

/// Refusals of the modules that keep balances and asset metadata.
#[derive(Clone, Copy, Debug, PartialEq, Eq, Structural)]
pub enum LedgerError {
    /// The free balance does not cover the amount.
    BalanceTooLow,
    /// The amount would eat into the frozen part of the free balance.
    LiquidityRestrictions,
    /// A balance would exceed `u128::MAX`.
    Overflow,
    /// No metadata is registered for the asset.
    MetadataNotExists,
}

/// Why a call fails.
#[derive(Clone, Copy, Debug, PartialEq, Eq, Structural)]
pub enum DispatchError {
    /// The origin is not of the kind the call needs.
    BadOrigin,
    /// The offering rules refuse the call.
    Module(Error),
    /// The ledger refuses a movement of funds.
    Ledger(LedgerError),
}

} // verus!
