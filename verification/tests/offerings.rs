use ico::pallet::{IcoHandler, IcoModule};
use ico::types::{
    AssetMetadata, DispatchError, Error, Event, Config, IcoLock, IcoMultiple, IcoParameters, LedgerError, Origin,
    OriginRule, Percent,
};

const NATIVE: u32 = 0;
const USDT: u32 = 3;
const PROJECT: u32 = 5;
const ALICE: u64 = 1;
const BOB: u64 = 2;
const CAROL: u64 = 3;
const COUNCIL: u64 = 9;

fn config(denominator: u32) -> Config {
    Config {
        min_proportion: Percent::from_percent(50),
        native_currency_id: NATIVE,
        initiator_pledge: 100,
        request_pledge: 10,
        request_expire: 50,
        native_multiple: IcoMultiple { numerator: 20, denominator },
        ico_total_reward: 400_000_000_000_000_000_000_000_000,
        permit_release_origin: OriginRule { allow_root: true, members: vec![] },
        terminate_ico_origin: OriginRule { allow_root: true, members: vec![COUNCIL] },
    }
}

fn params() -> IcoParameters {
    IcoParameters {
        currency_id: PROJECT,
        logo_url: b"logo".to_vec(),
        official_website: b"site".to_vec(),
        user_ico_max_count: 3,
        is_must_kyc: false,
        total_issuance: 10_000,
        total_circulation: 5_000,
        ico_duration: 100,
        total_ico_amount: 2_000,
        user_min_amount: 0,
        user_max_amount: 1_000_000,
        exchange_token: USDT,
        total_exchange_amount: 1_000,
        exclude_nation: vec![],
        lock_proportion: Percent::from_percent(50),
        unlock_duration: 10,
        per_duration_unlock_amount: 5,
    }
}

fn meta(decimals: u8) -> AssetMetadata {
    AssetMetadata { name: b"token".to_vec(), symbol: b"TK".to_vec(), decimals }
}

fn fresh() -> IcoModule {
    let mut m = IcoModule::new(config(10));
    m.metadata.insert(PROJECT, meta(12));
    m.metadata.insert(USDT, meta(18));
    m.metadata.insert(NATIVE, meta(18));
    assert!(m.ledger.deposit_creating(PROJECT, ALICE, 5_000));
    assert!(m.ledger.deposit_creating(NATIVE, ALICE, 1_000));
    assert!(m.ledger.deposit_creating(USDT, BOB, 500));
    m
}

fn started() -> IcoModule {
    let mut m = fresh();
    assert_eq!(m.initiate_ico(Origin::Signed(ALICE), params()), Ok(()));
    assert_eq!(m.permit_ico(Origin::Root, PROJECT), Ok(()));
    m
}

fn joined() -> IcoModule {
    let mut m = started();
    assert_eq!(m.join(Origin::Signed(BOB), PROJECT, 1, 100), Ok(()));
    m
}

fn m_err<T>(e: Error) -> Result<T, DispatchError> {
    Err(DispatchError::Module(e))
}

#[test]
fn initiate_reserves_pledge_and_offered_tokens() {
    let mut m = fresh();
    assert_eq!(m.initiate_ico(Origin::Signed(ALICE), params()), Ok(()));
    assert_eq!(m.ledger.free_balance(NATIVE, ALICE), 900);
    assert_eq!(m.ledger.reserved_balance(NATIVE, ALICE), 100);
    assert_eq!(m.ledger.free_balance(PROJECT, ALICE), 3_000);
    assert_eq!(m.ledger.reserved_balance(PROJECT, ALICE), 2_000);
    assert_eq!(m.pending_ico().len(), 1);
    let p = &m.pending_ico()[0];
    assert_eq!(p.pledge, 100);
    assert_eq!(p.ico.initiator, ALICE);
    assert_eq!(p.ico.project_name, b"token".to_vec());
    assert_eq!(p.ico.decimals, 12);
    assert_eq!(p.ico.index, None);
    assert!(m.is_pending_ico(PROJECT));
    assert_eq!(m.events, vec![Event::InitiateIco(ALICE, USDT, 2_000)]);
}

#[test]
fn initiate_refusals() {
    let mut m = fresh();
    let mut p = params();
    p.user_ico_max_count = 0;
    assert_eq!(m.initiate_ico(Origin::Signed(ALICE), p), m_err(Error::MaxCountIsZero));
    let mut p = params();
    p.currency_id = NATIVE;
    assert_eq!(m.initiate_ico(Origin::Signed(ALICE), p), m_err(Error::NativeCurrencyId));
    let mut p = params();
    p.exchange_token = PROJECT;
    assert_eq!(m.initiate_ico(Origin::Signed(ALICE), p), m_err(Error::TokenShouldBeDifferent));
    let mut p = params();
    p.total_exchange_amount = 0;
    assert_eq!(m.initiate_ico(Origin::Signed(ALICE), p), m_err(Error::AmountIsZero));
    let mut p = params();
    p.total_circulation = 20_000;
    assert_eq!(m.initiate_ico(Origin::Signed(ALICE), p), m_err(Error::AmountErr));
    let mut p = params();
    p.user_min_amount = 10;
    p.user_max_amount = 5;
    assert_eq!(m.initiate_ico(Origin::Signed(ALICE), p), m_err(Error::MinOrMaxIcoAmountSetErr));
    let mut p = params();
    p.ico_duration = 0;
    assert_eq!(m.initiate_ico(Origin::Signed(ALICE), p), m_err(Error::DurationIsZero));
    let mut p = params();
    p.unlock_duration = 0;
    assert_eq!(m.initiate_ico(Origin::Signed(ALICE), p), m_err(Error::LockParaErr));
    let mut p = params();
    p.total_ico_amount = 5_001;
    p.total_circulation = 6_000;
    assert_eq!(m.initiate_ico(Origin::Signed(ALICE), p), m_err(Error::AmountTooLow));
    assert_eq!(m.initiate_ico(Origin::Root, params()), Err(DispatchError::BadOrigin));
    assert_eq!(m.events.len(), 0);
    assert_eq!(m.ledger.free_balance(NATIVE, ALICE), 1_000);
    assert_eq!(m.initiate_ico(Origin::Signed(ALICE), params()), Ok(()));
    assert_eq!(m.initiate_ico(Origin::Signed(ALICE), params()), m_err(Error::IsPendingIco));
}

#[test]
fn initiate_needs_metadata_and_funds() {
    let mut m = IcoModule::new(config(10));
    m.metadata.insert(USDT, meta(18));
    assert!(m.ledger.deposit_creating(PROJECT, ALICE, 5_000));
    assert_eq!(m.initiate_ico(Origin::Signed(ALICE), params()), Err(DispatchError::Ledger(LedgerError::MetadataNotExists)));
    m.metadata.insert(PROJECT, meta(12));
    // no native currency for the pledge
    assert_eq!(m.initiate_ico(Origin::Signed(ALICE), params()), Err(DispatchError::Ledger(LedgerError::BalanceTooLow)));
    assert_eq!(m.pending_ico().len(), 0);
    m.total_num = u32::MAX;
    assert!(m.ledger.deposit_creating(NATIVE, ALICE, 1_000));
    assert_eq!(m.initiate_ico(Origin::Signed(ALICE), params()), m_err(Error::Overflow));
}

#[test]
fn permit_ico_starts_the_offering() {
    let mut m = fresh();
    m.set_block_number(7);
    m.initiate_ico(Origin::Signed(ALICE), params()).unwrap();
    assert_eq!(m.permit_ico(Origin::Signed(ALICE), PROJECT), Err(DispatchError::BadOrigin));
    assert_eq!(m.permit_ico(Origin::Root, USDT), m_err(Error::PendingIcoNotExists));
    assert_eq!(m.permit_ico(Origin::Root, PROJECT), Ok(()));
    assert_eq!(m.pending_ico().len(), 0);
    assert_eq!(m.total_num(), 1);
    let ico = m.ico(PROJECT, 1).unwrap();
    assert_eq!(ico.index, Some(1));
    assert_eq!(ico.start_time, Some(7));
    assert_eq!(m.indexes(PROJECT).unwrap(), &vec![1u32]);
    assert_eq!(m.ledger.free_balance(NATIVE, ALICE), 1_000);
    assert_eq!(m.ledger.reserved_balance(PROJECT, ALICE), 2_000);
    assert_eq!(m.events[1], Event::PermitIco(ALICE, PROJECT));
}

#[test]
fn permit_ico_overflow_keeps_pending() {
    let mut m = fresh();
    m.initiate_ico(Origin::Signed(ALICE), params()).unwrap();
    m.total_num = u32::MAX;
    assert_eq!(m.permit_ico(Origin::Root, PROJECT), m_err(Error::Overflow));
    assert_eq!(m.pending_ico().len(), 1);
}

#[test]
fn reject_ico_burns_the_pledge() {
    let mut m = fresh();
    m.initiate_ico(Origin::Signed(ALICE), params()).unwrap();
    assert_eq!(m.reject_ico(Origin::Root, PROJECT), Ok(()));
    assert_eq!(m.ledger.free_balance(NATIVE, ALICE), 900);
    assert_eq!(m.ledger.reserved_balance(NATIVE, ALICE), 0);
    assert_eq!(m.ledger.free_balance(PROJECT, ALICE), 5_000);
    assert_eq!(m.ledger.reserved_balance(PROJECT, ALICE), 0);
    assert_eq!(m.pending_ico().len(), 0);
    assert_eq!(m.reject_ico(Origin::Root, PROJECT), m_err(Error::PendingIcoNotExists));
    assert_eq!(m.events[1], Event::RejectIco(ALICE, PROJECT));
}

#[test]
fn join_exchanges_tokens() {
    let m = joined();
    assert_eq!(m.ledger.free_balance(USDT, BOB), 400);
    assert_eq!(m.ledger.reserved_balance(USDT, ALICE), 100);
    assert_eq!(m.ledger.free_balance(USDT, ALICE), 0);
    assert_eq!(m.ledger.reserved_balance(PROJECT, ALICE), 1_800);
    assert_eq!(m.ledger.reserved_balance(PROJECT, BOB), 200);
    let ico = m.ico(PROJECT, 1).unwrap();
    // the payment of 100 exchange tokens (eighteen decimals) is worth 100
    assert_eq!(ico.total_usdt, 100);
    let bob = m.get_unrelease_assets(BOB, PROJECT, 1).unwrap();
    assert_eq!((bob.total, bob.released, bob.total_usdt), (200, 0, 100));
    assert_eq!(bob.tags, vec![(100u128, 100u128)]);
    assert_eq!(bob.unreleased_currency_id, PROJECT);
    let alice = m.get_unrelease_assets(ALICE, PROJECT, 1).unwrap();
    assert_eq!((alice.total, alice.released, alice.total_usdt), (100, 0, 100));
    assert!(alice.tags.is_empty());
    assert_eq!(alice.unreleased_currency_id, USDT);
    assert_eq!(*m.events.last().unwrap(), Event::Join(BOB, PROJECT, 1, 100, 200));
}

#[test]
fn join_twice_accumulates_the_book() {
    let mut m = joined();
    assert_eq!(m.join(Origin::Signed(BOB), PROJECT, 1, 50), Ok(()));
    let bob = m.get_unrelease_assets(BOB, PROJECT, 1).unwrap();
    assert_eq!((bob.total, bob.total_usdt), (300, 150));
    assert_eq!(bob.tags, vec![(100u128, 100u128), (50, 150)]);
    assert_eq!(m.ico(PROJECT, 1).unwrap().total_usdt, 150);
    assert_eq!(m.get_user_ico_amount(PROJECT, 1, BOB), (300, 0));
    // the initiator's book holds what was raised: 150 of 1000
    assert_eq!(m.get_user_ico_amount(PROJECT, 1, ALICE), (150, 0));
}

#[test]
fn join_refusals() {
    let mut m = started();
    assert_eq!(m.join(Origin::Root, PROJECT, 1, 100), Err(DispatchError::BadOrigin));
    assert_eq!(m.join(Origin::Signed(BOB), PROJECT, 1, 0), m_err(Error::AmountIsZero));
    assert_eq!(m.join(Origin::Signed(BOB), PROJECT, 2, 100), m_err(Error::IcoNotExists));
    assert_eq!(m.join(Origin::Signed(ALICE), PROJECT, 1, 100), m_err(Error::InitiatorYourself));
    // with nineteen decimals a payment is worth a tenth of its amount, so
    // only the bound on the exchange tokens themselves refuses it
    m.metadata.insert(USDT, meta(19));
    assert_eq!(m.join(Origin::Signed(BOB), PROJECT, 1, 2_000_000), m_err(Error::AmountTooLowOrTooBig));
    m.metadata.insert(USDT, meta(18));
    assert_eq!(m.join(Origin::Signed(BOB), PROJECT, 1, 1_001), m_err(Error::AmountTooLow));
    assert_eq!(m.join(Origin::Signed(BOB), PROJECT, 1, 600), Err(DispatchError::Ledger(LedgerError::BalanceTooLow)));
    assert_eq!(m.ico(PROJECT, 1).unwrap().total_usdt, 0);
    assert_eq!(m.ledger.free_balance(USDT, BOB), 500);
    assert_eq!(m.initiator_set_ico_amount_bound(Origin::Signed(ALICE), PROJECT, 1, 200, 999), Ok(()));
    assert_eq!(m.join(Origin::Signed(BOB), PROJECT, 1, 100), m_err(Error::AmountNotMeetProjectRequirement));
    assert_eq!(m.initiator_set_ico_amount_bound(Origin::Signed(ALICE), PROJECT, 1, 0, 1_000_000), Ok(()));
    assert_eq!(m.set_system_ico_amount_bound(Origin::Root, 200, 1_000_000), Ok(()));
    assert_eq!(m.join(Origin::Signed(BOB), PROJECT, 1, 100), m_err(Error::AmountNotMeetSystemRequirement));
    assert_eq!(m.set_system_ico_amount_bound(Origin::Root, 0, 1_000_000), Ok(()));
    m.set_block_number(101);
    assert_eq!(m.join(Origin::Signed(BOB), PROJECT, 1, 100), m_err(Error::IcoExpire));
    m.set_block_number(0);
    assert_eq!(m.terminate_ico(Origin::Root, PROJECT, 1), Ok(()));
    assert_eq!(m.join(Origin::Signed(BOB), PROJECT, 1, 100), m_err(Error::Icoterminated));
}

#[test]
fn join_count_and_reserve_refusals() {
    let mut m = started();
    assert_eq!(m.initiator_set_ico_max_count(Origin::Signed(ALICE), PROJECT, 1, 1), Ok(()));
    assert_eq!(m.join(Origin::Signed(BOB), PROJECT, 1, 100), Ok(()));
    assert_eq!(m.join(Origin::Signed(BOB), PROJECT, 1, 100), m_err(Error::IcoCountToMax));
    let mut m = started();
    assert_eq!(m.ledger.slash_reserved(PROJECT, ALICE, 1_900), 0);
    assert_eq!(m.join(Origin::Signed(BOB), PROJECT, 1, 100), m_err(Error::ReservedBalanceNotEnough));
}

#[test]
fn join_refused_when_kyc_required() {
    let mut m = fresh();
    let mut p = params();
    p.is_must_kyc = true;
    m.initiate_ico(Origin::Signed(ALICE), p).unwrap();
    m.permit_ico(Origin::Root, PROJECT).unwrap();
    assert_eq!(m.is_in_exclude_nation(BOB, PROJECT, 1), Ok(true));
    assert_eq!(m.join(Origin::Signed(BOB), PROJECT, 1, 100), m_err(Error::InExcludeNation));
}

#[test]
fn join_in_native_currency_needs_a_denominator() {
    let mut m = IcoModule::new(config(0));
    m.metadata.insert(PROJECT, meta(12));
    m.metadata.insert(NATIVE, meta(18));
    assert!(m.ledger.deposit_creating(PROJECT, ALICE, 5_000));
    assert!(m.ledger.deposit_creating(NATIVE, ALICE, 1_000));
    let mut p = params();
    p.exchange_token = NATIVE;
    m.initiate_ico(Origin::Signed(ALICE), p).unwrap();
    m.permit_ico(Origin::Root, PROJECT).unwrap();
    assert_eq!(m.exchange_token_convert_usdt(NATIVE, 18, 1_000), m_err(Error::DenominatorIsZero));
    assert_eq!(m.join(Origin::Signed(BOB), PROJECT, 1, 100), m_err(Error::DenominatorIsZero));
}

#[test]
fn convert_usdt_values() {
    let m = fresh();
    // one token of eighteen decimals is one dollar
    assert_eq!(m.exchange_token_convert_usdt(USDT, 18, 1_000), Ok(1_000));
    // six decimals: a millionth of a token is 10^12 units of the dollar value
    assert_eq!(m.exchange_token_convert_usdt(USDT, 6, 5), Ok(5_000_000_000_000));
    // the native currency is worth twice as much
    assert_eq!(m.exchange_token_convert_usdt(NATIVE, 18, 1_000), Ok(2_000));
}

#[test]
fn swap_amounts_at_fixed_ratio() {
    let m = started();
    let ico = m.ico(PROJECT, 1).unwrap();
    assert_eq!(IcoModule::get_swap_token_amount(true, 100, ico), 200);
    assert_eq!(IcoModule::get_swap_token_amount(false, 200, ico), 100);
    assert_eq!(IcoModule::get_swap_token_amount(false, 3, ico), 1);
    // an exact exchange comes back whole; a rounded one never gives more
    let back = IcoModule::get_swap_token_amount(false, IcoModule::get_swap_token_amount(true, 37, ico), ico);
    assert_eq!(back, 37);
    assert!(IcoModule::get_swap_token_amount(true, 38, ico) >= IcoModule::get_swap_token_amount(true, 37, ico));
}

#[test]
fn handler_reports_membership_and_amounts() {
    let m = joined();
    assert_eq!(m.is_project_ico_member(PROJECT, 1, &BOB), Ok(true));
    assert_eq!(m.is_project_ico_member(PROJECT, 1, &ALICE), Ok(false));
    assert_eq!(m.is_project_ico_member(PROJECT, 1, &CAROL), Ok(false));
    assert_eq!(m.is_project_ico_member(PROJECT, 2, &BOB), Err(DispatchError::Module(Error::IcoNotExists)));
    assert_eq!(m.get_user_total_amount(PROJECT, 1, &BOB), 200);
    assert_eq!(m.get_user_total_amount(PROJECT, 1, &CAROL), 0);
    assert_eq!(m.get_total_ico_amount(PROJECT, 1), Ok(200));
    assert_eq!(m.get_total_ico_amount(PROJECT, 9), Err(DispatchError::Module(Error::IcoNotExists)));
    assert!(m.is_member(BOB, PROJECT, 1));
}

#[test]
fn terminate_by_council_member() {
    let mut m = started();
    assert_eq!(m.terminate_ico(Origin::Signed(BOB), PROJECT, 1), m_err(Error::BadOrigin));
    assert_eq!(m.terminate_ico(Origin::Signed(COUNCIL), PROJECT, 2), m_err(Error::IcoNotExists));
    assert_eq!(m.terminate_ico(Origin::Signed(COUNCIL), PROJECT, 1), Ok(()));
    assert!(m.ico(PROJECT, 1).unwrap().is_terminated);
    assert_eq!(m.terminate_ico(Origin::Root, PROJECT, 1), m_err(Error::Icoterminated));
    assert_eq!(*m.events.last().unwrap(), Event::TerminateIco(PROJECT, 1));
}

#[test]
fn request_and_permit_release() {
    let mut m = joined();
    assert_eq!(m.request_release(Origin::Signed(ALICE), PROJECT, 1, Percent::from_percent(0)), m_err(Error::ProportionTooLow));
    assert_eq!(m.request_release(Origin::Signed(BOB), PROJECT, 1, Percent::from_percent(50)), m_err(Error::NotInitiator));
    assert_eq!(m.permit_release(Origin::Root, PROJECT, 1), m_err(Error::RequestNotExists));
    assert_eq!(m.request_release(Origin::Signed(ALICE), PROJECT, 1, Percent::from_percent(50)), Ok(()));
    assert_eq!(m.ledger.reserved_balance(NATIVE, ALICE), 10);
    assert_eq!(m.request_release(Origin::Signed(ALICE), PROJECT, 1, Percent::from_percent(60)), m_err(Error::AlreadyRequest));
    let req = m.get_request_release_info(PROJECT, 1).unwrap();
    assert_eq!((req.who, req.pledge, req.percent.deconstruct()), (ALICE, 10, 50));
    assert_eq!(m.permit_release(Origin::Signed(ALICE), PROJECT, 1), m_err(Error::BadOrigin));
    assert_eq!(m.permit_release(Origin::Root, PROJECT, 1), Ok(()));
    assert_eq!(m.ico(PROJECT, 1).unwrap().already_released_proportion.deconstruct(), 50);
    assert_eq!(m.ledger.reserved_balance(NATIVE, ALICE), 0);
    assert_eq!(m.ledger.free_balance(NATIVE, ALICE), 1_000);
    assert!(m.release_info().is_empty());
    assert_eq!(*m.events.last().unwrap(), Event::PermitRelease(PROJECT, 1, req));
}

#[test]
fn request_release_refusals_on_terminated_or_poor() {
    let mut m = joined();
    assert!(m.ledger.transfer(NATIVE, ALICE, CAROL, 1_000).is_ok());
    assert_eq!(m.request_release(Origin::Signed(ALICE), PROJECT, 1, Percent::from_percent(50)),
        Err(DispatchError::Ledger(LedgerError::BalanceTooLow)));
    m.terminate_ico(Origin::Root, PROJECT, 1).unwrap();
    assert_eq!(m.request_release(Origin::Signed(ALICE), PROJECT, 1, Percent::from_percent(50)), m_err(Error::Icoterminated));
}

#[test]
fn permit_release_refused_after_termination() {
    let mut m = joined();
    m.request_release(Origin::Signed(ALICE), PROJECT, 1, Percent::from_percent(50)).unwrap();
    m.terminate_ico(Origin::Root, PROJECT, 1).unwrap();
    assert_eq!(m.permit_release(Origin::Root, PROJECT, 1), m_err(Error::Icoterminated));
}

#[test]
fn cancel_request_costs_half_the_pledge() {
    let mut m = joined();
    assert_eq!(m.cancel_request(Origin::Signed(ALICE), PROJECT, 1), m_err(Error::RequestNotExists));
    m.request_release(Origin::Signed(ALICE), PROJECT, 1, Percent::from_percent(50)).unwrap();
    assert_eq!(m.cancel_request(Origin::Signed(BOB), PROJECT, 1), m_err(Error::NotInitiator));
    assert_eq!(m.cancel_request(Origin::Signed(ALICE), PROJECT, 1), Ok(()));
    assert_eq!(m.ledger.free_balance(NATIVE, ALICE), 995);
    assert_eq!(m.ledger.reserved_balance(NATIVE, ALICE), 0);
    assert!(m.release_info().is_empty());
    assert_eq!(*m.events.last().unwrap(), Event::CancelRequest(PROJECT, 1));
}

#[test]
fn expired_requests_are_slashed_at_block_end() {
    let mut m = joined();
    m.request_release(Origin::Signed(ALICE), PROJECT, 1, Percent::from_percent(50)).unwrap();
    m.set_block_number(49);
    m.on_finalize(49);
    assert_eq!(m.release_info().len(), 1);
    m.set_block_number(50);
    m.on_finalize(50);
    assert!(m.release_info().is_empty());
    assert_eq!(m.ledger.reserved_balance(NATIVE, ALICE), 0);
    assert_eq!(m.ledger.free_balance(NATIVE, ALICE), 990);
}

#[test]
fn cleanup_twice_changes_nothing() {
    let mut m = joined();
    m.request_release(Origin::Signed(ALICE), PROJECT, 1, Percent::from_percent(50)).unwrap();
    m.set_block_number(60);
    m.on_finalize(60);
    let free = m.ledger.free_balance(NATIVE, ALICE);
    let events = m.events.len();
    m.on_finalize(60);
    assert!(m.release_info().is_empty());
    assert_eq!(m.ledger.free_balance(NATIVE, ALICE), free);
    assert_eq!(m.ledger.reserved_balance(NATIVE, ALICE), 0);
    assert_eq!(m.events.len(), events);
}

#[test]
fn user_release_locks_a_share() {
    let mut m = joined();
    assert_eq!(m.user_release_ico_amount(Origin::Signed(BOB), PROJECT, 1), m_err(Error::UnreleaseAmountIsZero));
    assert_eq!(m.user_release_ico_amount(Origin::Signed(CAROL), PROJECT, 1), m_err(Error::NotIcoMember));
    m.request_release(Origin::Signed(ALICE), PROJECT, 1, Percent::from_percent(50)).unwrap();
    m.permit_release(Origin::Root, PROJECT, 1).unwrap();
    assert_eq!(m.user_release_ico_amount(Origin::Signed(BOB), PROJECT, 1), Ok(()));
    assert_eq!(m.ledger.free_balance(PROJECT, BOB), 50);
    assert_eq!(m.ledger.reserved_balance(PROJECT, BOB), 150);
    let lock = m.locks(BOB, PROJECT).unwrap()[0];
    assert_eq!(lock, IcoLock {
        start_block: 0,
        index: 1,
        total_amount: 50,
        unlock_amount: 0,
        unlock_duration: 10,
        per_duration_unlock_amount: 5,
    });
    let bob = m.get_unrelease_assets(BOB, PROJECT, 1).unwrap();
    // the book records the 100 project tokens released, not converted again
    assert_eq!(bob.released, 100);
    assert_eq!(*m.events.last().unwrap(), Event::UserReleaseIcoAmount(PROJECT, 1, 100));
    assert_eq!(m.user_release_ico_amount(Origin::Signed(BOB), PROJECT, 1), m_err(Error::UnreleaseAmountIsZero));
}

#[test]
fn unlock_frees_slices_over_time() {
    let mut m = joined();
    m.request_release(Origin::Signed(ALICE), PROJECT, 1, Percent::from_percent(50)).unwrap();
    m.permit_release(Origin::Root, PROJECT, 1).unwrap();
    assert_eq!(m.unlock(Origin::Signed(BOB), PROJECT), m_err(Error::LockIsEmpty));
    m.user_release_ico_amount(Origin::Signed(BOB), PROJECT, 1).unwrap();
    m.set_block_number(20);
    assert_eq!(m.unlock(Origin::Signed(BOB), PROJECT), Ok(()));
    assert_eq!(m.ledger.free_balance(PROJECT, BOB), 60);
    assert_eq!(m.locks(BOB, PROJECT).unwrap()[0].unlock_amount, 10);
    assert_eq!(*m.events.last().unwrap(), Event::UnlockAsset(PROJECT, BOB, 10));
    assert_eq!(m.unlock(Origin::Signed(BOB), PROJECT), m_err(Error::UnlockAmountIsZero));
    m.set_block_number(1_000);
    assert_eq!(m.unlock(Origin::Signed(BOB), PROJECT), Ok(()));
    assert_eq!(m.ledger.free_balance(PROJECT, BOB), 100);
    assert!(m.locks(BOB, PROJECT).unwrap().is_empty());
}

#[test]
fn initiator_release_settles_unsold_tokens() {
    let mut m = joined();
    m.request_release(Origin::Signed(ALICE), PROJECT, 1, Percent::from_percent(50)).unwrap();
    m.permit_release(Origin::Root, PROJECT, 1).unwrap();
    m.set_block_number(200);
    assert_eq!(m.user_release_ico_amount(Origin::Signed(ALICE), PROJECT, 1), Ok(()));
    // half of what was raised is now free; the unsold project tokens were slashed
    assert_eq!(m.ledger.free_balance(USDT, ALICE), 50);
    assert_eq!(m.ledger.reserved_balance(USDT, ALICE), 50);
    assert_eq!(m.ledger.reserved_balance(PROJECT, ALICE), 0);
    let n = m.events.len();
    assert_eq!(m.events[n - 2], Event::UnreservedInitiatorRemainPledgeAmount(PROJECT, 1, 1_800));
    assert_eq!(m.events[n - 1], Event::UserReleaseIcoAmount(PROJECT, 1, 50));
}

#[test]
fn terminated_offering_gives_back_exchange_tokens() {
    let mut m = joined();
    m.terminate_ico(Origin::Root, PROJECT, 1).unwrap();
    assert_eq!(m.user_release_ico_amount(Origin::Signed(BOB), PROJECT, 1), Ok(()));
    assert_eq!(m.ledger.free_balance(USDT, BOB), 500);
    assert_eq!(m.ledger.reserved_balance(USDT, ALICE), 0);
    assert_eq!(m.ledger.reserved_balance(PROJECT, BOB), 0);
    assert_eq!(m.ledger.reserved_balance(PROJECT, ALICE), 0);
    let bob = m.get_unrelease_assets(BOB, PROJECT, 1).unwrap();
    assert!(bob.is_terminated);
    assert!(m.events.contains(&Event::TerminatedGiveBackAmount(BOB, PROJECT, 1, 200)));
    assert_eq!(m.user_release_ico_amount(Origin::Signed(BOB), PROJECT, 1), m_err(Error::UnreleasedAmountIsZero));
}

#[test]
fn rewards_after_the_offering_ends() {
    let mut m = joined();
    assert_eq!(m.get_reward(Origin::Signed(BOB), PROJECT, 1), m_err(Error::IcoNotExpireOrTerminated));
    m.set_block_number(200);
    // the first claim counts the offering's 100 into the historical total
    // and fixes its reward: 100 * (budget / 2) / 200_000_000 dollars = 100
    assert_eq!(m.get_reward(Origin::Signed(CAROL), PROJECT, 1), m_err(Error::NotIcoMember));
    assert_eq!(m.total_usdt(), 100);
    assert_eq!(m.ico_rewards.get(&((PROJECT as u64) << 32 | 1)), Some(&100));
    assert_eq!(m.get_reward(Origin::Signed(ALICE), PROJECT, 1), m_err(Error::RewardIsZero));
    assert_eq!(m.total_usdt(), 100);
    // Bob's 100 falls into the ten tenths of 10: weights 15, 14, 13, 12, 11,
    // 9, 8, 7, 6, 5 add up to 100, so he gets 100 * 100 / 100
    assert_eq!(m.get_reward(Origin::Signed(BOB), PROJECT, 1), Ok(()));
    assert_eq!(m.ledger.free_balance(NATIVE, BOB), 100);
    assert_eq!(m.total_usdt(), 100);
    assert_eq!(*m.events.last().unwrap(), Event::GetReward(PROJECT, 1, BOB, 100));
    assert_eq!(m.get_unrelease_assets(BOB, PROJECT, 1).unwrap().is_already_get_reward, Some(true));
    assert_eq!(m.get_reward(Origin::Signed(BOB), PROJECT, 1), m_err(Error::AlreadyGetReward));
    assert_eq!(m.ledger.free_balance(NATIVE, BOB), 100);
    assert_eq!(m.get_reward(Origin::Signed(BOB), PROJECT, 7), m_err(Error::IcoNotExists));
}

#[test]
fn bounds_and_counts() {
    let mut m = started();
    assert_eq!(m.set_system_ico_amount_bound(Origin::Signed(ALICE), 0, 10), Err(DispatchError::BadOrigin));
    assert_eq!(m.set_system_ico_amount_bound(Origin::Root, 5, 0), m_err(Error::MinOrMaxIcoAmountSetErr));
    assert_eq!(m.set_system_ico_amount_bound(Origin::Root, 10, 20_000), Ok(()));
    assert_eq!((m.ico_min_usdt_amount, m.ico_max_usdt_amount), (10, 20_000));
    assert_eq!(m.initiator_set_ico_amount_bound(Origin::Signed(BOB), PROJECT, 1, 10, 100), m_err(Error::NotInitiator));
    assert_eq!(m.initiator_set_ico_amount_bound(Origin::Signed(ALICE), PROJECT, 1, 10, 30_000), m_err(Error::MinOrMaxIcoAmountSetErr));
    assert_eq!(m.initiator_set_ico_amount_bound(Origin::Signed(ALICE), PROJECT, 1, 10, 100), Ok(()));
    let ico = m.ico(PROJECT, 1).unwrap();
    assert_eq!((ico.user_min_amount, ico.user_max_amount), (10, 100));
    assert_eq!(m.initiator_set_ico_max_count(Origin::Signed(ALICE), PROJECT, 1, 3), m_err(Error::MaxCountErr));
    assert_eq!(m.initiator_set_ico_max_count(Origin::Signed(ALICE), PROJECT, 1, 0), m_err(Error::MaxCountErr));
    assert_eq!(m.initiator_set_ico_max_count(Origin::Signed(ALICE), PROJECT, 2, 5), m_err(Error::IcoNotExists));
    assert_eq!(m.initiator_set_ico_max_count(Origin::Signed(ALICE), PROJECT, 1, 5), Ok(()));
    assert_eq!(m.ico(PROJECT, 1).unwrap().user_ico_max_count, 5);
    assert_eq!(*m.events.last().unwrap(), Event::SetIcoMaxCount(PROJECT, 1, 5));
}

#[test]
fn join_refused_beyond_what_is_left_to_raise() {
    let mut m = started();
    assert!(m.ledger.deposit_creating(USDT, CAROL, 1_000));
    assert_eq!(m.join(Origin::Signed(BOB), PROJECT, 1, 400), Ok(()));
    // 400 of 1000 are raised, so 700 more do not fit but 600 do
    assert_eq!(m.join(Origin::Signed(CAROL), PROJECT, 1, 700), m_err(Error::AmountTooLow));
    assert_eq!(m.join(Origin::Signed(CAROL), PROJECT, 1, 600), Ok(()));
    assert_eq!(m.get_user_ico_amount(PROJECT, 1, ALICE), (1_000, 0));
    assert_eq!(m.join(Origin::Signed(CAROL), PROJECT, 1, 1), m_err(Error::AmountTooLow));
}

#[test]
fn unlocking_in_steps_frees_as_much_as_at_once() {
    let mut a = joined();
    a.request_release(Origin::Signed(ALICE), PROJECT, 1, Percent::from_percent(50)).unwrap();
    a.permit_release(Origin::Root, PROJECT, 1).unwrap();
    a.user_release_ico_amount(Origin::Signed(BOB), PROJECT, 1).unwrap();
    let mut b = joined();
    b.request_release(Origin::Signed(ALICE), PROJECT, 1, Percent::from_percent(50)).unwrap();
    b.permit_release(Origin::Root, PROJECT, 1).unwrap();
    b.user_release_ico_amount(Origin::Signed(BOB), PROJECT, 1).unwrap();
    a.set_block_number(20);
    assert_eq!(a.unlock(Origin::Signed(BOB), PROJECT), Ok(()));
    a.set_block_number(45);
    assert_eq!(a.unlock(Origin::Signed(BOB), PROJECT), Ok(()));
    b.set_block_number(45);
    assert_eq!(b.unlock(Origin::Signed(BOB), PROJECT), Ok(()));
    assert_eq!(a.ledger.free_balance(PROJECT, BOB), 70);
    assert_eq!(b.ledger.free_balance(PROJECT, BOB), 70);
    assert_eq!(a.locks(BOB, PROJECT).unwrap(), b.locks(BOB, PROJECT).unwrap());
}

#[test]
fn unlocking_at_many_blocks_frees_as_much_as_at_the_last() {
    let mut a = joined();
    a.request_release(Origin::Signed(ALICE), PROJECT, 1, Percent::from_percent(50)).unwrap();
    a.permit_release(Origin::Root, PROJECT, 1).unwrap();
    a.user_release_ico_amount(Origin::Signed(BOB), PROJECT, 1).unwrap();
    for block in [10u64, 25, 33, 70] {
        a.set_block_number(block);
        assert_eq!(a.unlock(Origin::Signed(BOB), PROJECT), Ok(()));
    }
    // seven periods of 10 have passed: 7 * 5 = 35 of the 50 locked are free
    assert_eq!(a.ledger.free_balance(PROJECT, BOB), 50 + 35);
    assert_eq!(a.locks(BOB, PROJECT).unwrap()[0].unlock_amount, 35);
    a.set_block_number(500);
    assert_eq!(a.unlock(Origin::Signed(BOB), PROJECT), Ok(()));
    assert_eq!(a.ledger.free_balance(PROJECT, BOB), 100);
    assert!(a.locks(BOB, PROJECT).unwrap().is_empty());
}
